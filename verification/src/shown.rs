//! What is read on the board: the lines of a panel without their escape sequences.
use vstd::prelude::*;

#[allow(unused_imports)]
use crate::{
    board::title_line,
    card::{counted_as, Bases, GameCard},
    competition::Competition,
    number::{decimal, is_digit, law_decimal_reads_back, signed_decimal},
    panel::{
        caption, count_rows, diamond, in_two_places, joined, keys_line, labelled,
        law_rows_of_a_panel, panel_lines, panel_title, score_cell_row, score_line,
        status_line, team_line, top_line,
    },
    plain::{
        all_plain, is_neat, lemma_decimal_plain, lemma_neat_badge, lemma_neat_bold,
        lemma_neat_displayed, lemma_neat_team_color, lemma_plain_is_neat, lemma_shown_on_one_line,
        lemma_signed_plain,
    },
    style::{
        base_mark, dot_row, in_bold, in_cyan, in_dim, in_green, law_bases_shown,
        law_dots_shown, law_style_is_invisible, DotColor,
    },
    teams::{
        badge, badge_name, in_team_color, law_badge_shows_name, law_team_color_is_invisible,
    },
    text::{blanks, displayed, is_white, lemma_trimmed_tail, on_one_line, repeated},
    width::{
        closed, columns, is_plain, lemma_plain_concat, lemma_plain_is_displayed,
        lemma_shown_concat, lemma_shown_unescaped, less, padded_left, padded_right, plain_columns,
        visible, ESCAPE,
    },
};

verus! {

/// A plain text is read as it is.
proof fn lemma_plain_shown(text: Seq<char>)
    requires
        is_plain(text),
    ensures
        visible(text) == text,
        closed(text),
{
    assert(!text.contains(ESCAPE)) by {
        if text.contains(ESCAPE) {
            let i = choose|i: int| 0 <= i < text.len() && text[i] == ESCAPE;
            assert(plain_columns(text[i]) is Some);
        }
    }
    lemma_shown_unescaped(text);
}

/// What stands behind a text that leaves no sequence open is read behind it.
proof fn lemma_read_after(left: Seq<char>, right: Seq<char>)
    requires
        closed(left),
    ensures
        visible(left + right) == visible(left) + visible(right),
        closed(left + right) == closed(right),
{
    lemma_shown_concat(left, right, false);
}

proof fn lemma_blanks_read(count: nat)
    ensures
        visible(blanks(count)) == blanks(count),
        closed(blanks(count)),
{
    assert(is_plain(blanks(count)));
    lemma_plain_shown(blanks(count));
}

proof fn lemma_dim_read(styled: bool, text: Seq<char>)
    ensures
        visible(in_dim(styled, text)) == visible(text),
        closed(text) ==> closed(in_dim(styled, text)),
{
    reveal_strlit("2");
    law_style_is_invisible(styled, "2"@, text);
}

/// Displaying a neat text takes nothing from what is read but blanks at its end.
proof fn lemma_displayed_read(text: Seq<char>) -> (count: nat)
    requires
        is_neat(text),
    ensures
        visible(text) == visible(displayed(text)) + blanks(count),
        closed(displayed(text)),
{
    let line = text.map_values(|c: char| on_one_line(c));
    let short = displayed(text);
    lemma_neat_displayed(text);
    lemma_shown_on_one_line(text, false);
    assert(visible(line) =~= visible(text)) by {
        assert forall|i: int| 0 <= i < visible(text).len() implies on_one_line(
            #[trigger] visible(text)[i],
        ) == visible(text)[i] by {
            assert(plain_columns(visible(text)[i]) is Some);
        }
    }
    let end = lemma_trimmed_tail(line);
    let rest = line.skip(end);
    assert(short + rest =~= line);
    assert(!rest.contains(ESCAPE)) by {
        if rest.contains(ESCAPE) {
            let i = choose|i: int| 0 <= i < rest.len() && rest[i] == ESCAPE;
            assert(is_white(line[end + i]));
        }
    }
    lemma_shown_unescaped(rest);
    lemma_read_after(short, rest);
    lemma_plain_concat(visible(short), rest);
    assert(rest =~= blanks(rest.len())) by {
        assert forall|i: int| 0 <= i < rest.len() implies rest[i] == ' ' by {
            assert(is_white(line[end + i]));
            assert(plain_columns(rest[i]) is Some);
        }
    }
    rest.len()
}

/// A badge with blanks behind it is read as the name between blanks.
proof fn lemma_badge_read(styled: bool, team: Seq<char>, width: nat) -> (gap: nat)
    requires
        is_plain(team),
        team.len() > 0,
        team.last() != ' ',
    ensures
        visible(padded_right(badge(styled, team), width)) == blanks(1) + badge_name(team) + blanks(
            gap,
        ),
        closed(padded_right(badge(styled, team), width)),
{
    let name = badge_name(team);
    let mark = badge(styled, team);
    let whole = " "@ + name + " "@;
    reveal_strlit(" ");
    reveal_strlit("K T");
    reveal_strlit("L G");
    reveal_strlit("N C");
    assert(name.len() > 0 && name.last() != ' ');
    lemma_neat_badge(styled, team);
    law_badge_shows_name(styled, team);
    lemma_plain_concat(" "@, name);
    lemma_plain_concat(" "@ + name, " "@);
    lemma_plain_shown(whole);
    let cut = lemma_displayed_read(mark);
    let left = visible(displayed(mark));
    assert(left + blanks(cut) == whole);
    assert(left.len() + cut == name.len() + 2);
    assert(cut <= 1) by {
        if cut >= 2 {
            assert(whole[whole.len() - 2] == name.last());
            assert((left + blanks(cut))[whole.len() - 2] == ' ');
        }
    }
    assert forall|i: int| 0 <= i < left.len() implies left[i] == whole[i] by {
        assert((left + blanks(cut))[i] == left[i]);
    }
    let p = less(width, columns(displayed(mark)));
    lemma_blanks_read(p);
    lemma_read_after(displayed(mark), blanks(p));
    let gap = (p + 1 - cut) as nat;
    assert(left + blanks(p) =~= blanks(1) + name + blanks(gap));
    gap
}

/// Runs with blanks before them are read as their number.
proof fn lemma_runs_read(styled: bool, team: Seq<char>, runs: int, width: nat) -> (gap: nat)
    ensures
        visible(
            padded_left(
                in_team_color(styled, team, in_bold(styled, signed_decimal(runs))),
                width,
            ),
        ) == blanks(gap) + signed_decimal(runs),
        closed(
            padded_left(
                in_team_color(styled, team, in_bold(styled, signed_decimal(runs))),
                width,
            ),
        ),
{
    let text = signed_decimal(runs);
    let number = in_team_color(styled, team, in_bold(styled, text));
    reveal_strlit("1");
    lemma_signed_plain(runs);
    lemma_plain_is_neat(text);
    lemma_plain_shown(text);
    law_style_is_invisible(styled, "1"@, text);
    lemma_neat_bold(styled, text);
    lemma_neat_team_color(styled, team, in_bold(styled, text));
    law_team_color_is_invisible(styled, team, in_bold(styled, text));
    let lost = lemma_displayed_read(number);
    let digits = visible(displayed(number));
    law_decimal_reads_back(
        if runs < 0 {
            (-runs) as nat
        } else {
            runs as nat
        },
    );
    assert(lost == 0) by {
        if lost > 0 {
            assert((digits + blanks(lost)).last() == ' ');
            assert(is_digit(text.last()));
        }
    }
    assert(digits + blanks(0) =~= digits);
    let gap = less(width, columns(displayed(number)));
    lemma_blanks_read(gap);
    lemma_read_after(blanks(gap), displayed(number));
    gap
}

/// A row of runs is read as the name of the team, then its runs, and a mark at the end exactly
/// where the team is at bat.
#[verifier::spinoff_prover]
#[verifier::rlimit(40)]
pub proof fn law_score_row_is_read(
    styled: bool,
    team: Seq<char>,
    runs: int,
    attacking: bool,
) -> (gap: nat)
    requires
        is_plain(team),
        team.len() > 0,
        team.last() != ' ',
    ensures
        gap >= 2,
        visible(score_line(styled, team, runs, attacking)) == blanks(3) + badge_name(team) + blanks(
            gap,
        ) + signed_decimal(runs) + (if attacking {
            "  ◀ 공격"@
        } else {
            Seq::empty()
        }),
{
    let mark = padded_right(badge(styled, team), 8);
    let number = padded_left(in_team_color(styled, team, in_bold(styled, signed_decimal(runs))), 3);
    let tail = if attacking {
        "  "@ + in_cyan(styled, "◀ 공격"@)
    } else {
        ""@
    };
    reveal_strlit("  ");
    reveal_strlit("");
    reveal_strlit("◀ 공격");
    reveal_strlit("  ◀ 공격");
    reveal_strlit("36");
    let p = lemma_badge_read(styled, team, 8);
    let q = lemma_runs_read(styled, team, runs, 3);
    lemma_plain_shown("  "@);
    lemma_plain_shown(""@);
    lemma_plain_shown("◀ 공격"@);
    law_style_is_invisible(styled, "36"@, "◀ 공격"@);
    lemma_read_after("  "@, in_cyan(styled, "◀ 공격"@));
    let one = "  "@ + mark;
    let two = one + "  "@;
    let three = two + number;
    lemma_read_after("  "@, mark);
    lemma_read_after(one, "  "@);
    lemma_read_after(two, number);
    lemma_read_after(three, tail);
    let gap = p + 2 + q;
    assert(visible(tail) =~= (if attacking {
        "  ◀ 공격"@
    } else {
        Seq::empty()
    }));
    assert(visible(three) =~= blanks(3) + badge_name(team) + blanks(gap) + signed_decimal(runs));
    gap
}

/// A labelled row is read as its label and, behind blanks, its value.
pub proof fn law_label_row_is_read(styled: bool, label: Seq<char>, value: Seq<char>) -> (gap: nat)
    requires
        is_plain(label),
        label.len() > 0,
        label.last() != ' ',
    ensures
        gap >= 2,
        visible(labelled(styled, label, value)) == blanks(2) + label + blanks(gap) + visible(value),
{
    reveal_strlit("  ");
    let p = less(4, columns(displayed(label)));
    let padded = padded_right(label, 4);
    lemma_plain_is_displayed(label);
    lemma_plain_shown(label);
    lemma_plain_shown("  "@);
    lemma_blanks_read(p);
    lemma_read_after(label, blanks(p));
    lemma_dim_read(styled, padded);
    let one = "  "@ + in_dim(styled, padded);
    lemma_read_after("  "@, in_dim(styled, padded));
    lemma_read_after(one, "  "@);
    lemma_read_after(one + "  "@, value);
    let gap = p + 2;
    assert(visible(labelled(styled, label, value)) =~= blanks(2) + label + blanks(gap) + visible(
        value,
    ));
    gap
}

/// In every panel with room for it, the tenth row is read as the batter and the eleventh as
/// the pitcher.
pub proof fn law_batter_and_pitcher_are_read(
    styled: bool,
    card: GameCard,
    width: nat,
    height: nat,
) -> (gaps: (nat, nat))
    requires
        height >= 11,
    ensures
        visible(panel_lines(styled, card, width, height)[9]) == blanks(2) + "타자"@ + blanks(gaps.0)
            + visible(card.batter_text(styled)),
        visible(panel_lines(styled, card, width, height)[10]) == blanks(2) + "투수"@ + blanks(
            gaps.1,
        ) + visible(card.pitcher_text(styled)),
{
    reveal_strlit("타자");
    reveal_strlit("투수");
    assert(is_plain("타자"@));
    assert(is_plain("투수"@));
    law_rows_of_a_panel(styled, card, width, height, 0);
    (
        law_label_row_is_read(styled, "타자"@, card.batter_text(styled)),
        law_label_row_is_read(styled, "투수"@, card.pitcher_text(styled)),
    )
}

/// The mark that is read for a base.
pub open spec fn base_sign(occupied: bool) -> Seq<char> {
    seq![
        if occupied {
            '◆'
        } else {
            '◇'
        },
    ]
}

/// The dots that are read for a count.
pub open spec fn count_sign(counted: nat, places: nat) -> Seq<char> {
    Seq::new(
        places,
        |i: int|
            if i < counted {
                '●'
            } else {
                '○'
            },
    )
}

/// The diamond is read with second base at its top, third base at its left and first base at
/// its right; beside it stand the balls, the strikes and the outs, from the top down.
#[verifier::spinoff_prover]
#[verifier::rlimit(40)]
pub proof fn law_field_is_read(styled: bool, card: GameCard, width: nat, height: nat)
    requires
        height >= 8,
    ensures
        ({
            let rows = panel_lines(styled, card, width, height);
            let bases = card.runners();
            let balls = if card.state is Some {
                counted_as(card.state->0.ball)
            } else {
                0
            };
            let strikes = if card.state is Some {
                counted_as(card.state->0.strike)
            } else {
                0
            };
            let outs = if card.state is Some {
                counted_as(card.state->0.out)
            } else {
                0
            };
            &&& visible(rows[3]) == blanks(7) + base_sign(bases.second) + blanks(9)
            &&& visible(rows[4]) == "     ╱   ╲       B  "@ + count_sign(balls, 3)
            &&& visible(rows[5]) == blanks(3) + base_sign(bases.third) + blanks(7) + base_sign(
                bases.first,
            ) + blanks(3) + "  S  "@ + count_sign(strikes, 2)
            &&& visible(rows[6]) == "     ╲   ╱       O  "@ + count_sign(outs, 2)
            &&& visible(rows[7]) == "       ⌂         "@
        }),
{
    let bases = card.runners();
    let balls = if card.state is Some {
        counted_as(card.state->0.ball)
    } else {
        0
    };
    let strikes = if card.state is Some {
        counted_as(card.state->0.strike)
    } else {
        0
    };
    let outs = if card.state is Some {
        counted_as(card.state->0.out)
    } else {
        0
    };
    law_rows_of_a_panel(styled, card, width, height, 0);
    law_rows_of_a_panel(styled, card, width, height, 1);
    law_rows_of_a_panel(styled, card, width, height, 2);
    law_rows_of_a_panel(styled, card, width, height, 3);
    law_rows_of_a_panel(styled, card, width, height, 4);
    lemma_diamond_read(styled, bases);
    lemma_counts_read(styled, balls, strikes, outs);
    let marks = diamond(styled, bases);
    let counts = count_rows(styled, balls, strikes, outs);
    let gap = seq![' ', ' '];
    assert(is_plain(gap));
    lemma_plain_shown(gap);
    lemma_beside(marks[0], gap, counts[0]);
    lemma_beside(marks[1], gap, counts[1]);
    lemma_beside(marks[2], gap, counts[2]);
    lemma_beside(marks[3], gap, counts[3]);
    lemma_beside(marks[4], gap, counts[4]);
    reveal_strlit("     ╱   ╲     ");
    reveal_strlit("     ╲   ╱     ");
    reveal_strlit("       ⌂       ");
    reveal_strlit("     ╱   ╲       B  ");
    reveal_strlit("     ╲   ╱       O  ");
    reveal_strlit("       ⌂         ");
    reveal_strlit("  S  ");
    reveal_strlit("B  ");
    reveal_strlit("S  ");
    reveal_strlit("O  ");
    let rows = panel_lines(styled, card, width, height);
    assert(visible(rows[3]) =~= blanks(7) + base_sign(bases.second) + blanks(9));
    assert(visible(rows[4]) =~= "     ╱   ╲       B  "@ + count_sign(balls, 3));
    assert(visible(rows[5]) =~= blanks(3) + base_sign(bases.third) + blanks(7) + base_sign(
        bases.first,
    ) + blanks(3) + "  S  "@ + count_sign(strikes, 2));
    assert(visible(rows[6]) =~= "     ╲   ╱       O  "@ + count_sign(outs, 2));
    assert(visible(rows[7]) =~= "       ⌂         "@);
}

proof fn lemma_beside(left: Seq<char>, gap: Seq<char>, right: Seq<char>)
    requires
        closed(left),
        closed(gap),
        visible(gap) == gap,
    ensures
        visible(left + gap + right) == visible(left) + gap + visible(right),
{
    lemma_read_after(left, gap);
    lemma_read_after(left + gap, right);
}

proof fn lemma_diamond_read(styled: bool, bases: Bases)
    ensures
        ({
            let rows = diamond(styled, bases);
            &&& forall|i: int| 0 <= i < 5 ==> closed(#[trigger] rows[i])
            &&& visible(rows[0]) == blanks(7) + base_sign(bases.second) + blanks(7)
            &&& visible(rows[1]) == "     ╱   ╲     "@
            &&& visible(rows[2]) == blanks(3) + base_sign(bases.third) + blanks(7) + base_sign(
                bases.first,
            ) + blanks(3)
            &&& visible(rows[3]) == "     ╲   ╱     "@
            &&& visible(rows[4]) == "       ⌂       "@
        }),
{
    reveal_strlit("       ");
    reveal_strlit("   ");
    reveal_strlit("     ╱   ╲     ");
    reveal_strlit("     ╲   ╱     ");
    reveal_strlit("       ⌂       ");
    lemma_plain_shown("       "@);
    lemma_plain_shown("   "@);
    lemma_plain_shown("     ╱   ╲     "@);
    lemma_plain_shown("     ╲   ╱     "@);
    lemma_plain_shown("       ⌂       "@);
    lemma_dim_read(styled, "     ╱   ╲     "@);
    lemma_dim_read(styled, "     ╲   ╱     "@);
    lemma_dim_read(styled, "       ⌂       "@);
    law_bases_shown(styled, bases.first);
    law_bases_shown(styled, bases.second);
    law_bases_shown(styled, bases.third);
    let first = base_mark(styled, bases.first);
    let second = base_mark(styled, bases.second);
    let third = base_mark(styled, bases.third);
    lemma_read_after("       "@, second);
    lemma_read_after("       "@ + second, "       "@);
    lemma_read_after("   "@, third);
    lemma_read_after("   "@ + third, "       "@);
    lemma_read_after("   "@ + third + "       "@, first);
    lemma_read_after("   "@ + third + "       "@ + first, "   "@);
    assert("       "@ =~= blanks(7));
    assert("   "@ =~= blanks(3));
}

proof fn lemma_counts_read(styled: bool, balls: nat, strikes: nat, outs: nat)
    ensures
        ({
            let rows = count_rows(styled, balls, strikes, outs);
            &&& visible(rows[0]).len() == 0
            &&& visible(rows[1]) == "B  "@ + count_sign(balls, 3)
            &&& visible(rows[2]) == "S  "@ + count_sign(strikes, 2)
            &&& visible(rows[3]) == "O  "@ + count_sign(outs, 2)
            &&& visible(rows[4]).len() == 0
        }),
{
    reveal_strlit("B  ");
    reveal_strlit("S  ");
    reveal_strlit("O  ");
    lemma_plain_shown("B  "@);
    lemma_plain_shown("S  "@);
    lemma_plain_shown("O  "@);
    law_dots_shown(styled, balls, 3, DotColor::Green);
    law_dots_shown(styled, strikes, 2, DotColor::Yellow);
    law_dots_shown(styled, outs, 2, DotColor::Red);
    lemma_read_after("B  "@, dot_row(styled, balls, 3, DotColor::Green));
    lemma_read_after("S  "@, dot_row(styled, strikes, 2, DotColor::Yellow));
    lemma_read_after("O  "@, dot_row(styled, outs, 2, DotColor::Red));
    assert(visible(dot_row(styled, balls, 3, DotColor::Green)) =~= count_sign(balls, 3));
    assert(visible(dot_row(styled, strikes, 2, DotColor::Yellow)) =~= count_sign(strikes, 2));
    assert(visible(dot_row(styled, outs, 2, DotColor::Red)) =~= count_sign(outs, 2));
}

/// What is read of a cell of the table of innings.
pub open spec fn cell_sign(scores: Seq<Seq<char>>, i: int) -> Seq<char> {
    if i < scores.len() && scores[i] != seq!['-'] {
        in_two_places(scores[i])
    } else {
        seq![' ', '-']
    }
}

/// The row of a team in the table of innings is read as its name and, inning by inning, the
/// runs that are told of it, or a dash.
pub proof fn law_team_row_is_read(
    styled: bool,
    team: Seq<char>,
    scores: Seq<Seq<char>>,
    innings: nat,
) -> (gap: nat)
    requires
        is_plain(team),
        team.len() > 0,
        team.last() != ' ',
        all_plain(scores),
    ensures
        gap >= 1,
        visible(team_line(styled, team, scores, innings)) == blanks(2) + team + blanks(gap) + joined(
            Seq::new(innings, |i: int| cell_sign(scores, i)),
        ),
{
    reveal_strlit("  ");
    reveal_strlit(" ");
    let p = less(7, columns(displayed(team)));
    let padded = padded_right(team, 7);
    lemma_plain_is_displayed(team);
    lemma_plain_shown(team);
    lemma_plain_shown("  "@);
    lemma_plain_shown(" "@);
    lemma_blanks_read(p);
    lemma_read_after(team, blanks(p));
    law_team_color_is_invisible(styled, team, padded);
    let colored = in_team_color(styled, team, padded);
    let one = "  "@ + colored;
    lemma_read_after("  "@, colored);
    lemma_read_after(one, " "@);
    let cells = score_cell_row(styled, scores, innings);
    lemma_cells_read(styled, scores, innings);
    lemma_read_after(one + " "@, joined(cells));
    let gap = p + 1;
    assert(visible(team_line(styled, team, scores, innings)) =~= blanks(2) + team + blanks(gap)
        + visible(joined(cells)));
    gap
}

proof fn lemma_cells_read(styled: bool, scores: Seq<Seq<char>>, innings: nat)
    requires
        all_plain(scores),
    ensures
        visible(joined(score_cell_row(styled, scores, innings))) == joined(
            Seq::new(innings, |i: int| cell_sign(scores, i)),
        ),
        closed(joined(score_cell_row(styled, scores, innings))),
    decreases innings,
{
    let cells = score_cell_row(styled, scores, innings);
    let signs = Seq::new(innings, |i: int| cell_sign(scores, i));
    if innings > 0 {
        let last = innings - 1;
        reveal_strlit("-");
        reveal_strlit(" -");
        reveal_strlit(" ");
        assert("-"@ =~= seq!['-']);
        assert(" -"@ =~= seq![' ', '-']);
        lemma_plain_shown(" -"@);
        lemma_plain_shown(" "@);
        lemma_dim_read(styled, " -"@);
        if last < scores.len() {
            let told = scores[last];
            assert(is_plain(told));
            assert(is_plain(blanks(less(2, told.len()))));
            lemma_plain_concat(blanks(less(2, told.len())), told);
            lemma_plain_shown(in_two_places(told));
        }
        assert(visible(cells[last]) == signs[last] && closed(cells[last]));
        lemma_cells_read(styled, scores, last as nat);
        assert(cells.drop_last() =~= score_cell_row(styled, scores, last as nat));
        assert(signs.drop_last() =~= Seq::new(last as nat, |i: int| cell_sign(scores, i)));
        if innings > 1 {
            let before = joined(cells.drop_last());
            lemma_read_after(before, " "@);
            lemma_read_after(before + " "@, cells[last]);
        }
    } else {
        assert(cells =~= Seq::<Seq<char>>::empty());
        assert(signs =~= Seq::<Seq<char>>::empty());
    }
}

/// The title of a panel is read as the mark of the competition and the state of the game,
/// with a word of its own while the game is on.
pub proof fn law_title_is_read(styled: bool, card: GameCard, competition: Competition)
    ensures
        visible(panel_title(styled, card, competition)) == (match competition {
            Competition::Kbo => "KBO"@,
            Competition::AsianGames => "AG"@,
        }) + " · "@ + (if card.game.started() {
            "● LIVE "@
        } else {
            Seq::empty()
        }) + visible(card.status_words()),
{
    reveal_strlit("KBO");
    reveal_strlit("AG");
    reveal_strlit(" · ");
    reveal_strlit("● LIVE");
    reveal_strlit("● LIVE ");
    reveal_strlit(" ");
    reveal_strlit("36");
    reveal_strlit("32");
    let words = card.status_words();
    let mark = competition.mark();
    lemma_plain_shown("KBO"@);
    lemma_plain_shown("AG"@);
    lemma_plain_shown(" · "@);
    lemma_plain_shown("● LIVE"@);
    lemma_plain_shown(" "@);
    lemma_dim_read(styled, mark);
    lemma_dim_read(styled, words);
    law_style_is_invisible(styled, "36"@, words);
    law_style_is_invisible(styled, "32"@, "● LIVE"@);
    let live = in_green(styled, "● LIVE"@);
    lemma_read_after(live, " "@);
    lemma_read_after(live + " "@, in_dim(styled, words));
    lemma_read_after(in_dim(styled, mark), " · "@);
    lemma_read_after(in_dim(styled, mark) + " · "@, status_line(styled, card));
    assert(visible(status_line(styled, card)) =~= (if card.game.started() {
        "● LIVE "@
    } else {
        Seq::empty()
    }) + visible(words));
    assert(visible(panel_title(styled, card, competition)) =~= mark + " · "@ + (
    if card.game.started() {
        "● LIVE "@
    } else {
        Seq::empty()
    }) + visible(words));
}

/// A title that leaves a column is read whole in the top border.
pub proof fn law_top_border_is_read(styled: bool, title: Seq<char>, inner: nat)
    requires
        closed(title),
        columns(seq![' '] + title + seq![' ']) + 1 <= inner,
    ensures
        visible(top_line(styled, title, inner)) == "┌─ "@ + visible(title) + seq![' '] + repeated(
            '─',
            (inner - columns(seq![' '] + title + seq![' ']) - 1) as nat,
        ) + seq!['┐'],
{
    reveal_strlit("┌─");
    reveal_strlit("┌─ ");
    reveal_strlit("┐");
    reveal_strlit(" ");
    assert(" "@ =~= seq![' ']);
    assert("┐"@ =~= seq!['┐']);
    let raw = " "@ + title + " "@;
    let line = repeated('─', (inner - columns(raw) - 1) as nat);
    assert(is_plain(line));
    lemma_plain_shown("┌─"@);
    lemma_plain_shown("┐"@);
    lemma_plain_shown(" "@);
    lemma_plain_shown(line);
    lemma_dim_read(styled, "┌─"@);
    lemma_dim_read(styled, line);
    lemma_dim_read(styled, "┐"@);
    lemma_read_after(" "@, title);
    lemma_read_after(" "@ + title, " "@);
    let start = in_dim(styled, "┌─"@);
    lemma_read_after(start, raw);
    lemma_read_after(start + raw, in_dim(styled, line));
    lemma_read_after(start + raw + in_dim(styled, line), in_dim(styled, "┐"@));
    assert(visible(top_line(styled, title, inner)) =~= "┌─ "@ + visible(title) + seq![' '] + line
        + seq!['┐']);
}

/// The caption of a panel is read as the number of its game among all games, and the teams,
/// the away team first. Its foot is read as the keys and the time.
pub proof fn law_caption_is_read(
    styled: bool,
    card: GameCard,
    game_count: nat,
    now: Seq<char>,
)
    requires
        closed(card.game.away_team_name@),
    ensures
        visible(caption(styled, card, game_count)) == seq!['['] + decimal((card.index + 1) as nat)
            + seq!['/'] + decimal(game_count) + seq![']', ' '] + visible(card.game.away_team_name@)
            + " vs "@ + visible(card.game.home_team_name@),
        visible(keys_line(styled, now)) == "q:종료  r:새로고침 · "@ + visible(now),
{
    let away = card.game.away_team_name@;
    let home = card.game.home_team_name@;
    let number = decimal((card.index + 1) as nat);
    let count = decimal(game_count);
    reveal_strlit("[");
    reveal_strlit("/");
    reveal_strlit("]");
    reveal_strlit(" ");
    reveal_strlit("vs ");
    reveal_strlit(" vs ");
    reveal_strlit("q:종료  r:새로고침 · ");
    let position = "["@ + number + "/"@ + count + "]"@;
    lemma_decimal_plain((card.index + 1) as nat);
    lemma_decimal_plain(game_count);
    lemma_plain_concat("["@, number);
    lemma_plain_concat("["@ + number, "/"@);
    lemma_plain_concat("["@ + number + "/"@, count);
    lemma_plain_concat("["@ + number + "/"@ + count, "]"@);
    lemma_plain_shown(position);
    lemma_plain_shown(" "@);
    lemma_plain_shown("vs "@);
    lemma_plain_shown("q:종료  r:새로고침 · "@);
    lemma_dim_read(styled, position);
    lemma_read_after("vs "@, home);
    lemma_dim_read(styled, "vs "@ + home);
    let one = in_dim(styled, position) + " "@;
    lemma_read_after(in_dim(styled, position), " "@);
    lemma_read_after(one, away);
    lemma_read_after(one + away, " "@);
    lemma_read_after(one + away + " "@, in_dim(styled, "vs "@ + home));
    assert(visible(caption(styled, card, game_count)) =~= seq!['['] + number + seq!['/'] + count
        + seq![']', ' '] + visible(away) + " vs "@ + visible(home));
    lemma_read_after("q:종료  r:새로고침 · "@, now);
    lemma_dim_read(styled, "q:종료  r:새로고침 · "@ + now);
}

/// The title of the board is read as the competition, the date, the time, the seconds between
/// two boards and the keys.
#[verifier::spinoff_prover]
#[verifier::rlimit(40)]
pub proof fn law_board_title_is_read(
    styled: bool,
    competition: Competition,
    date: Seq<char>,
    now: Seq<char>,
    seconds: nat,
)
    requires
        closed(date),
        closed(now),
    ensures
        visible(title_line(styled, competition, date, now, seconds)) == (match competition {
            Competition::Kbo => "KBO LIVE"@,
            Competition::AsianGames => "ASIAN GAMES BASEBALL"@,
        }) + " · "@ + visible(date) + " · "@ + visible(now) + " KST · refresh "@ + decimal(seconds)
            + "s · q:종료 r:새로고침"@,
{
    reveal_strlit("KBO LIVE");
    reveal_strlit("ASIAN GAMES BASEBALL");
    reveal_strlit(" ");
    reveal_strlit("· ");
    reveal_strlit(" · ");
    reveal_strlit(" KST · refresh ");
    reveal_strlit("s · q:종료 r:새로고침");
    reveal_strlit("1");
    let title = competition.title();
    lemma_plain_shown("KBO LIVE"@);
    lemma_plain_shown("ASIAN GAMES BASEBALL"@);
    lemma_plain_shown(" "@);
    lemma_plain_shown("· "@);
    lemma_plain_shown(" · "@);
    lemma_plain_shown(" KST · refresh "@);
    lemma_plain_shown("s · q:종료 r:새로고침"@);
    lemma_decimal_plain(seconds);
    lemma_plain_shown(decimal(seconds));
    law_style_is_invisible(styled, "1"@, title);
    let a = "· "@ + date;
    let b = a + " · "@;
    let c = b + now;
    let d = c + " KST · refresh "@;
    let e = d + decimal(seconds);
    let details = e + "s · q:종료 r:새로고침"@;
    lemma_read_after("· "@, date);
    lemma_read_after(a, " · "@);
    lemma_read_after(b, now);
    lemma_read_after(c, " KST · refresh "@);
    lemma_read_after(d, decimal(seconds));
    lemma_read_after(e, "s · q:종료 r:새로고침"@);
    lemma_dim_read(styled, details);
    let head = in_bold(styled, title);
    lemma_read_after(head, " "@);
    lemma_read_after(head + " "@, in_dim(styled, details));
    assert(visible(title_line(styled, competition, date, now, seconds)) =~= title + " · "@
        + visible(date) + " · "@ + visible(now) + " KST · refresh "@ + decimal(seconds)
        + "s · q:종료 r:새로고침"@);
}

} // verus!
