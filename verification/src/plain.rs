//! Cards of plain texts: what is drawn of them keeps to the columns of its panel.
use vstd::prelude::*;

#[allow(unused_imports)]
use crate::{
    card::{
        counted_as, different, event_texts, given_scores, half_of, runs_in, texts, Bases, GameCard,
    },
    competition::Competition,
    naver::{after_first, field_or, Game, GameState, Player, TextRelayData},
    number::{decimal, is_digit, law_decimal_reads_back, signed_decimal},
    panel::{
        caption, count_rows, diamond, field_rows, in_two_places, inning_numbers, inning_rows,
        innings_shown, joined, keys_line, labelled, panel_fits, panel_head, panel_lines,
        panel_title, play_line, plays_wanted, score_cell, score_cell_row, score_line, status_line,
        team_line,
    },
    players::{
        batting, first_with, pitcher_name, pitching, player_text, players_of, shown_average,
        starters_text, Side,
    },
    style::{
        base_mark, dot_row, in_bold, in_cyan, in_dim, in_green, in_red, in_style, in_yellow,
        law_dots_shown, law_style_is_invisible, DotColor,
    },
    teams::{
        badge, badge_label, badge_name, in_team_color, law_badge_shows_name,
        law_team_color_is_invisible,
    },
    text::{blanks, displayed, lemma_trimmed_end, on_one_line, squeezed},
    width::{
        closed, columns, fits, is_plain, law_display_keeps_sequences,
        lemma_plain_concat, lemma_plain_repeated, lemma_shown_concat, lemma_shown_unescaped, less,
        padded_left, padded_right, plain_columns, shown, visible, ESCAPE,
    },
};

verus! {

/// Whether `text` shows plain characters only, and leaves no escape sequence open.
pub open spec fn is_neat(text: Seq<char>) -> bool {
    closed(text) && is_plain(visible(text))
}

/// A plain text is neat: it holds no escape sequence.
pub broadcast proof fn lemma_plain_is_neat(text: Seq<char>)
    requires
        is_plain(text),
    ensures
        #[trigger] is_neat(text),
{
    assert(!text.contains(ESCAPE)) by {
        if text.contains(ESCAPE) {
            let i = choose|i: int| 0 <= i < text.len() && text[i] == ESCAPE;
            assert(plain_columns(text[i]) is Some);
        }
    }
    lemma_shown_unescaped(text);
}

/// Neat texts one behind the other are neat.
pub broadcast proof fn lemma_neat_concat(left: Seq<char>, right: Seq<char>)
    requires
        is_neat(left),
        is_neat(right),
    ensures
        #[trigger] is_neat(left + right),
{
    lemma_shown_concat(left, right, false);
    lemma_plain_concat(visible(left), visible(right));
}

/// A neat text is neat in every style.
proof fn lemma_neat_style(styled: bool, code: Seq<char>, text: Seq<char>)
    requires
        is_neat(text),
        !code.contains('m'),
    ensures
        is_neat(in_style(styled, code, text)),
{
    law_style_is_invisible(styled, code, text);
}

/// A neat text is neat in bold.
pub broadcast proof fn lemma_neat_bold(styled: bool, text: Seq<char>)
    requires
        is_neat(text),
    ensures
        #[trigger] is_neat(in_bold(styled, text)),
{
    reveal_strlit("1");
    lemma_neat_style(styled, "1"@, text);
}

/// A neat text is neat faint.
pub broadcast proof fn lemma_neat_dim(styled: bool, text: Seq<char>)
    requires
        is_neat(text),
    ensures
        #[trigger] is_neat(in_dim(styled, text)),
{
    reveal_strlit("2");
    lemma_neat_style(styled, "2"@, text);
}

/// A neat text is neat in cyan.
pub broadcast proof fn lemma_neat_cyan(styled: bool, text: Seq<char>)
    requires
        is_neat(text),
    ensures
        #[trigger] is_neat(in_cyan(styled, text)),
{
    reveal_strlit("36");
    lemma_neat_style(styled, "36"@, text);
}

/// A neat text is neat in green.
pub broadcast proof fn lemma_neat_green(styled: bool, text: Seq<char>)
    requires
        is_neat(text),
    ensures
        #[trigger] is_neat(in_green(styled, text)),
{
    reveal_strlit("32");
    lemma_neat_style(styled, "32"@, text);
}

/// A neat text is neat in yellow.
pub broadcast proof fn lemma_neat_yellow(styled: bool, text: Seq<char>)
    requires
        is_neat(text),
    ensures
        #[trigger] is_neat(in_yellow(styled, text)),
{
    reveal_strlit("33");
    lemma_neat_style(styled, "33"@, text);
}

/// A neat text is neat in red.
pub broadcast proof fn lemma_neat_red(styled: bool, text: Seq<char>)
    requires
        is_neat(text),
    ensures
        #[trigger] is_neat(in_red(styled, text)),
{
    reveal_strlit("31");
    lemma_neat_style(styled, "31"@, text);
}

/// A neat text is neat in the colour of a team.
pub broadcast proof fn lemma_neat_team_color(styled: bool, team: Seq<char>, text: Seq<char>)
    requires
        is_neat(text),
    ensures
        #[trigger] is_neat(in_team_color(styled, team, text)),
{
    law_team_color_is_invisible(styled, team, text);
}

/// The badge of a plain name is neat.
pub broadcast proof fn lemma_neat_badge(styled: bool, team: Seq<char>)
    requires
        is_plain(team),
    ensures
        #[trigger] is_neat(badge(styled, team)),
{
    law_badge_shows_name(styled, team);
    lemma_plain_is_neat(team);
    reveal_strlit("K T");
    reveal_strlit("L G");
    reveal_strlit("N C");
    reveal_strlit(" ");
    lemma_plain_concat(" "@, badge_name(team));
    lemma_plain_concat(" "@ + badge_name(team), " "@);
    lemma_plain_is_neat(badge_label(team));
}

/// Blanks are neat.
pub broadcast proof fn lemma_neat_blanks(count: nat)
    ensures
        #[trigger] is_neat(blanks(count)),
{
    lemma_plain_repeated(' ', count);
    lemma_plain_is_neat(blanks(count));
}

/// Line breaks and tabs are seen as blanks wherever they stand.
pub proof fn lemma_shown_on_one_line(text: Seq<char>, inside: bool)
    ensures
        shown(text.map_values(|c: char| on_one_line(c)), inside) == shown(
            text,
            inside,
        ).map_values(|c: char| on_one_line(c)),
    decreases text.len(),
{
    let line = text.map_values(|c: char| on_one_line(c));
    if text.len() > 0 {
        let rest = text.skip(1);
        assert(line.skip(1) =~= rest.map_values(|c: char| on_one_line(c)));
        let next = if inside {
            text[0] != 'm'
        } else {
            text[0] == ESCAPE
        };
        lemma_shown_on_one_line(rest, next);
    }
    assert(shown(line, inside) =~= shown(text, inside).map_values(|c: char| on_one_line(c)));
}

/// A neat text is neat on its line of the board.
pub proof fn lemma_neat_displayed(text: Seq<char>)
    requires
        is_neat(text),
    ensures
        is_neat(displayed(text)),
{
    let line = text.map_values(|c: char| on_one_line(c));
    let short = displayed(text);
    law_display_keeps_sequences(text);
    lemma_shown_on_one_line(text, false);
    assert(visible(line) =~= visible(text)) by {
        assert forall|i: int| 0 <= i < visible(text).len() implies on_one_line(
            #[trigger] visible(text)[i],
        ) == visible(text)[i] by {
            assert(plain_columns(visible(text)[i]) is Some);
        }
    }
    lemma_trimmed_end(line);
    let rest = line.skip(short.len() as int);
    assert(short + rest =~= line);
    lemma_shown_concat(short, rest, false);
    lemma_plain_concat(visible(short), shown(rest, false));
}

/// A neat text is neat with blanks behind it.
pub broadcast proof fn lemma_neat_padded_right(text: Seq<char>, width: nat)
    requires
        is_neat(text),
    ensures
        #[trigger] is_neat(padded_right(text, width)),
{
    lemma_neat_displayed(text);
    let count = less(width, columns(displayed(text)));
    lemma_neat_blanks(count);
    lemma_neat_concat(displayed(text), blanks(count));
}

/// A neat text is neat with blanks before it.
pub broadcast proof fn lemma_neat_padded_left(text: Seq<char>, width: nat)
    requires
        is_neat(text),
    ensures
        #[trigger] is_neat(padded_left(text, width)),
{
    lemma_neat_displayed(text);
    let count = less(width, columns(displayed(text)));
    lemma_neat_blanks(count);
    lemma_neat_concat(blanks(count), displayed(text));
}

/// A neat text fits wherever there is a column.
pub proof fn lemma_neat_fits(text: Seq<char>, width: nat)
    requires
        is_neat(text),
        width >= 1,
    ensures
        fits(text, width),
{
    lemma_neat_displayed(text);
}

/// How neat texts are made of one another.
pub broadcast group group_neat {
    lemma_plain_is_neat,
    lemma_neat_concat,
    lemma_neat_bold,
    lemma_neat_dim,
    lemma_neat_cyan,
    lemma_neat_green,
    lemma_neat_yellow,
    lemma_neat_red,
    lemma_neat_team_color,
    lemma_neat_badge,
    lemma_neat_blanks,
    lemma_neat_padded_right,
    lemma_neat_padded_left,
}

/// Decimals are plain.
pub proof fn lemma_decimal_plain(value: nat)
    ensures
        is_plain(decimal(value)),
{
    law_decimal_reads_back(value);
    assert forall|i: int| 0 <= i < decimal(value).len() implies plain_columns(
        #[trigger] decimal(value)[i],
    ) is Some by {
        assert(is_digit(decimal(value)[i]));
    }
}

pub proof fn lemma_signed_plain(value: int)
    ensures
        is_plain(signed_decimal(value)),
{
    if value < 0 {
        lemma_decimal_plain((-value) as nat);
        lemma_plain_concat(seq!['-'], decimal((-value) as nat));
    } else {
        lemma_decimal_plain(value as nat);
    }
}

/// The row of a team's runs is neat.
proof fn lemma_score_line_neat(styled: bool, team: Seq<char>, runs: int, attacking: bool)
    requires
        is_plain(team),
    ensures
        is_neat(score_line(styled, team, runs, attacking)),
{
    broadcast use group_neat;

    reveal_strlit("  ");
    reveal_strlit("");
    reveal_strlit("◀ 공격");
    lemma_signed_plain(runs);
    assert(is_neat("  "@));
    assert(is_neat(""@));
    assert(is_neat("◀ 공격"@));
}

proof fn lemma_labelled_neat(styled: bool, label: Seq<char>, value: Seq<char>)
    requires
        is_plain(label),
        is_neat(value),
    ensures
        is_neat(labelled(styled, label, value)),
{
    broadcast use group_neat;

    reveal_strlit("  ");
    assert(is_neat("  "@));
}

/// Whether every line is neat.
pub open spec fn all_neat(lines: Seq<Seq<char>>) -> bool {
    forall|i: int| 0 <= i < lines.len() ==> is_neat(#[trigger] lines[i])
}

proof fn lemma_dots_neat(styled: bool, filled: nat, count: nat, color: DotColor)
    ensures
        is_neat(dot_row(styled, filled, count, color)),
{
    law_dots_shown(styled, filled, count, color);
}

proof fn lemma_bases_neat(styled: bool, occupied: bool)
    ensures
        is_neat(base_mark(styled, occupied)),
{
    broadcast use group_neat;

    reveal_strlit("◆");
    reveal_strlit("◇");
    assert(is_neat("◆"@));
    assert(is_neat("◇"@));
}

proof fn lemma_diamond_neat(styled: bool, bases: Bases)
    ensures
        all_neat(diamond(styled, bases)),
{
    broadcast use group_neat;

    reveal_strlit("       ");
    reveal_strlit("   ");
    reveal_strlit("     ╱   ╲     ");
    reveal_strlit("     ╲   ╱     ");
    reveal_strlit("       ⌂       ");
    lemma_bases_neat(styled, bases.first);
    lemma_bases_neat(styled, bases.second);
    lemma_bases_neat(styled, bases.third);
    assert(is_neat("       "@));
    assert(is_neat("   "@));
    assert(is_neat("     ╱   ╲     "@));
    assert(is_neat("     ╲   ╱     "@));
    assert(is_neat("       ⌂       "@));
}

proof fn lemma_counts_neat(styled: bool, balls: nat, strikes: nat, outs: nat)
    ensures
        all_neat(count_rows(styled, balls, strikes, outs)),
{
    broadcast use group_neat;

    reveal_strlit("B  ");
    reveal_strlit("S  ");
    reveal_strlit("O  ");
    lemma_dots_neat(styled, balls, 3, DotColor::Green);
    lemma_dots_neat(styled, strikes, 2, DotColor::Yellow);
    lemma_dots_neat(styled, outs, 2, DotColor::Red);
    assert(is_neat("B  "@));
    assert(is_neat("S  "@));
    assert(is_neat("O  "@));
    assert(is_neat(Seq::<char>::empty()));
}

proof fn lemma_field_neat(styled: bool, card: GameCard)
    ensures
        all_neat(field_rows(styled, card)),
{
    broadcast use group_neat;

    reveal_strlit("  ");
    assert(is_neat("  "@));
    lemma_diamond_neat(styled, card.runners());
    lemma_counts_neat(
        styled,
        counted_as(card.told_field(|state: GameState| state.ball)),
        counted_as(card.told_field(|state: GameState| state.strike)),
        counted_as(card.told_field(|state: GameState| state.out)),
    );
    assert forall|i: int| 0 <= i < 5 implies is_neat(
        #[trigger] field_rows(styled, card)[i],
    ) by {
        let bases = diamond(styled, card.runners());
        let counts = count_rows(
            styled,
            counted_as(card.told_field(|state: GameState| state.ball)),
            counted_as(card.told_field(|state: GameState| state.strike)),
            counted_as(card.told_field(|state: GameState| state.out)),
        );
        assert(is_neat(bases[i]) && is_neat(counts[i]));
        assert(is_neat(bases[i] + "  "@ + counts[i]));
    }
}

/// Whether a field is plain, where it is there.
pub open spec fn plain_field(field: Option<String>) -> bool {
    field is Some ==> is_plain(field->0@)
}

/// Whether every text is plain.
pub open spec fn all_plain(lines: Seq<Seq<char>>) -> bool {
    forall|i: int| 0 <= i < lines.len() ==> is_plain(#[trigger] lines[i])
}

/// Whether the texts that are shown of a game are plain.
pub open spec fn plain_game(game: Game) -> bool {
    &&& is_plain(game.away_team_name@)
    &&& is_plain(game.home_team_name@)
    &&& plain_field(game.game_date_time)
    &&& plain_field(game.status_info)
    &&& plain_field(game.current_inning)
    &&& plain_field(game.away_starter_name)
    &&& plain_field(game.home_starter_name)
    &&& plain_field(game.away_current_pitcher_name)
    &&& plain_field(game.home_current_pitcher_name)
    &&& all_plain(texts(game.away_team_score_by_inning@))
    &&& all_plain(texts(game.home_team_score_by_inning@))
}

/// Whether the texts that are shown of a player are plain.
pub open spec fn plain_player(player: Player) -> bool {
    &&& is_plain(player.name@)
    &&& plain_field(player.today_hra)
    &&& plain_field(player.season_hra)
    &&& plain_field(player.today_era)
    &&& plain_field(player.season_era)
}

/// Whether the texts that are shown of players are plain.
pub open spec fn plain_players(players: Seq<Player>) -> bool {
    forall|i: int| 0 <= i < players.len() ==> plain_player(#[trigger] players[i])
}

/// Whether the runs of a table are plain.
pub open spec fn plain_runs(table: Map<Seq<char>, Seq<char>>) -> bool {
    forall|name: Seq<char>| table.dom().contains(name) ==> is_plain(#[trigger] table[name])
}

/// Whether the texts that are shown of a relay are plain.
pub open spec fn plain_relay(relay: TextRelayData) -> bool {
    &&& plain_players(players_of(relay.away_lineup))
    &&& plain_players(players_of(relay.away_entry))
    &&& plain_players(players_of(relay.home_lineup))
    &&& plain_players(players_of(relay.home_entry))
    &&& relay.inning_score is Some ==> plain_runs(relay.inning_score->0.away@) && plain_runs(
        relay.inning_score->0.home@,
    )
}

/// Whether the texts that are shown of a card are plain.
pub open spec fn plain_card(card: GameCard) -> bool {
    &&& plain_game(card.game)
    &&& card.relay is Some ==> plain_relay(card.relay->0)
    &&& plain_field(card.told_field(|state: GameState| state.out))
    &&& plain_field(card.error)
    &&& all_plain(event_texts(card.latest_events@))
}

proof fn lemma_player_neat(styled: bool, player: Player)
    requires
        plain_player(player),
    ensures
        is_neat(player_text(styled, player)),
{
    broadcast use group_neat;

    reveal_strlit(" ");
    reveal_strlit("AVG ");
    reveal_strlit("ERA ");
    assert(is_neat(" "@));
    assert(is_neat("AVG "@));
    assert(is_neat("ERA "@));
    assert(is_neat(player.name@));
    if batting(player) is Some {
        assert(is_plain(shown_average(batting(player)->0@)));
        assert(is_neat(shown_average(batting(player)->0@)));
    } else if pitching(player) is Some {
        assert(is_neat(pitching(player)->0@));
    }
}

proof fn lemma_first_plain(pcode: Seq<char>, players: Seq<Player>)
    requires
        plain_players(players),
    ensures
        first_with(pcode, players) is Some ==> plain_player(first_with(pcode, players)->0),
    decreases players.len(),
{
    if players.len() > 0 {
        assert forall|i: int| 0 <= i < players.skip(1).len() implies plain_player(
            #[trigger] players.skip(1)[i],
        ) by {
            assert(plain_player(players[i + 1]));
        }
        lemma_first_plain(pcode, players.skip(1));
    }
}

proof fn lemma_squad_plain(card: GameCard, at_bat: bool)
    requires
        plain_card(card),
    ensures
        plain_players(card.squad(at_bat)),
{
}

proof fn lemma_starters_neat(styled: bool, game: Game)
    requires
        plain_game(game),
    ensures
        is_neat(starters_text(styled, game)),
{
    broadcast use group_neat;

    reveal_strlit(" ");
    reveal_strlit("-");
    reveal_strlit("선발");
    reveal_strlit("vs");
    assert(is_neat(" "@));
    assert(is_neat("-"@));
    assert(is_neat("선발"@));
    assert(is_neat("vs"@));
    if game.away_starter_name is Some && game.home_starter_name is Some {
        assert(is_neat(game.away_starter_name->0@));
        assert(is_neat(game.home_starter_name->0@));
    }
}

proof fn lemma_pitcher_name_neat(styled: bool, current: Option<String>, starter: Option<String>)
    requires
        plain_field(current),
        plain_field(starter),
    ensures
        is_neat(pitcher_name(styled, current, starter)),
{
    broadcast use group_neat;

    reveal_strlit("-");
    assert(is_neat("-"@));
    if current is Some {
        assert(is_neat(current->0@));
    } else if starter is Some {
        assert(is_neat(starter->0@));
    }
}

/// Batter and pitcher are neat.
proof fn lemma_duel_neat(styled: bool, card: GameCard)
    requires
        plain_card(card),
    ensures
        is_neat(card.batter_text(styled)),
        is_neat(card.pitcher_text(styled)),
{
    let batter = card.told_field(|state: GameState| state.batter);
    let pitcher = card.told_field(|state: GameState| state.pitcher);
    lemma_squad_plain(card, true);
    lemma_squad_plain(card, false);
    if batter is Some {
        lemma_first_plain(batter->0@, card.squad(true));
    }
    if pitcher is Some {
        lemma_first_plain(pitcher->0@, card.squad(false));
    }
    if card.named_player(batter, true) is Some {
        lemma_player_neat(styled, card.named_player(batter, true)->0);
    } else {
        reveal_strlit("-");
        lemma_plain_is_neat("-"@);
    }
    if card.named_player(pitcher, false) is Some {
        lemma_player_neat(styled, card.named_player(pitcher, false)->0);
    }
    lemma_starters_neat(styled, card.game);
    lemma_pitcher_name_neat(
        styled,
        card.game.home_current_pitcher_name,
        card.game.home_starter_name,
    );
    lemma_pitcher_name_neat(
        styled,
        card.game.away_current_pitcher_name,
        card.game.away_starter_name,
    );
}

/// The lines of runs are plain.
proof fn lemma_lines_plain(card: GameCard)
    requires
        plain_card(card),
    ensures
        all_plain(card.lines().0),
        all_plain(card.lines().1),
{
    reveal_strlit("-");
    if card.relay is Some && card.relay->0.inning_score is Some {
        let score = card.relay->0.inning_score->0;
        assert forall|n: nat|
            #![trigger runs_in(score.away@, n)]
            #![trigger runs_in(score.home@, n)]
            is_plain(runs_in(score.away@, n)) && is_plain(runs_in(score.home@, n)) by {}
    } else {
        lemma_given_plain(texts(card.game.away_team_score_by_inning@));
        lemma_given_plain(texts(card.game.home_team_score_by_inning@));
    }
}

proof fn lemma_given_plain(scores: Seq<Seq<char>>)
    requires
        all_plain(scores),
    ensures
        all_plain(given_scores(scores)),
    decreases scores.len(),
{
    reveal(Seq::filter);
    if scores.len() > 0 {
        lemma_given_plain(scores.drop_last());
    }
}

pub proof fn lemma_joined_neat(cells: Seq<Seq<char>>)
    requires
        all_neat(cells),
    ensures
        is_neat(joined(cells)),
    decreases cells.len(),
{
    broadcast use group_neat;

    if cells.len() == 0 {
        assert(is_neat(Seq::<char>::empty()));
    } else if cells.len() > 1 {
        reveal_strlit(" ");
        assert(is_neat(" "@));
        lemma_joined_neat(cells.drop_last());
        assert(is_neat(cells.last()));
    }
}

pub proof fn lemma_two_places_neat(text: Seq<char>)
    requires
        is_plain(text),
    ensures
        is_neat(in_two_places(text)),
{
    broadcast use group_neat;

    assert(is_neat(text));
    assert(is_neat(blanks(less(2, text.len()))));
}

/// The row of a team in the table of innings is neat.
proof fn lemma_team_line_neat(
    styled: bool,
    team: Seq<char>,
    scores: Seq<Seq<char>>,
    innings: nat,
)
    requires
        is_plain(team),
        all_plain(scores),
    ensures
        is_neat(team_line(styled, team, scores, innings)),
{
    broadcast use group_neat;

    let cells = score_cell_row(styled, scores, innings);
    reveal_strlit("  ");
    reveal_strlit(" ");
    reveal_strlit(" -");
    assert(is_neat("  "@));
    assert(is_neat(" "@));
    assert(is_neat(" -"@));
    assert(is_neat(team));
    assert forall|i: int| 0 <= i < cells.len() implies is_neat(#[trigger] cells[i]) by {
        if i < scores.len() {
            lemma_two_places_neat(scores[i]);
        }
        assert(is_neat(score_cell(styled, scores, i)));
    }
    lemma_joined_neat(cells);
}

/// The table of innings is neat.
proof fn lemma_innings_neat(styled: bool, card: GameCard, width: nat)
    requires
        plain_card(card),
    ensures
        all_neat(inning_rows(styled, card, width)),
{
    broadcast use group_neat;

    reveal(inning_rows);
    reveal_strlit("  ");
    reveal_strlit(" ");
    reveal_strlit("회");
    reveal_strlit("  회");
    reveal_strlit("  스코어보드 대기 중");
    assert(is_neat("  "@));
    assert(is_neat(" "@));
    assert(is_neat("회"@));
    assert(is_neat("  회"@));
    assert(is_neat("  스코어보드 대기 중"@));
    lemma_lines_plain(card);
    let (away, home) = card.lines();
    let innings = innings_shown(away.len(), home.len(), width);
    let numbers = inning_numbers(innings);
    assert forall|i: int| 0 <= i < numbers.len() implies is_neat(#[trigger] numbers[i]) by {
        lemma_decimal_plain((i + 1) as nat);
        lemma_two_places_neat(decimal((i + 1) as nat));
    }
    lemma_joined_neat(numbers);
    lemma_team_line_neat(styled, card.game.away_team_name@, away, innings);
    lemma_team_line_neat(styled, card.game.home_team_name@, home, innings);
}

/// Words that are squeezed stay plain.
proof fn lemma_squeezed_plain(text: Seq<char>)
    requires
        is_plain(text),
    ensures
        is_plain(squeezed(text)),
    decreases text.len(),
{
    if text.len() > 0 {
        lemma_squeezed_plain(text.drop_last());
        assert(plain_columns(text.last()) is Some);
    }
}

proof fn lemma_different_plain(lines: Seq<Seq<char>>)
    requires
        all_plain(lines),
    ensures
        all_plain(different(lines)),
    decreases lines.len(),
{
    if lines.len() > 0 {
        lemma_different_plain(lines.drop_last());
        lemma_squeezed_plain(lines.last());
    }
}

/// The plays to show are plain.
proof fn lemma_plays_plain(card: GameCard, max: nat)
    requires
        plain_card(card),
    ensures
        all_plain(card.plays(max)),
{
    lemma_different_plain(event_texts(card.latest_events@));
    reveal_strlit("API 오류: ");
    reveal_strlit("문자중계 없음");
    reveal_strlit("문자중계 대기 중");
    assert(is_plain("API 오류: "@));
    assert(is_plain("문자중계 없음"@));
    assert(is_plain("문자중계 대기 중"@));
    if card.error is Some {
        lemma_squeezed_plain(card.error->0@);
        lemma_plain_concat("API 오류: "@, squeezed(card.error->0@));
    }
}

proof fn lemma_start_time_plain(text: Seq<char>)
    requires
        is_plain(text),
    ensures
        after_first(text, 'T') is Some ==> is_plain(after_first(text, 'T')->0),
    decreases text.len(),
{
    if text.len() > 0 {
        assert(is_plain(text.skip(1)));
        lemma_start_time_plain(text.skip(1));
    }
}

/// The label and the start of a game are plain.
proof fn lemma_label_plain(game: Game)
    requires
        plain_game(game),
    ensures
        is_plain(game.label()),
        is_plain(game.start_time()),
{
    reveal_strlit("취소");
    reveal_strlit("중단");
    reveal_strlit("경기전");
    reveal_strlit("LIVE");
    reveal_strlit("종료");
    reveal_strlit("상태없음");
    reveal_strlit("--:--");
    assert(is_plain("취소"@) && is_plain("중단"@) && is_plain("경기전"@));
    assert(is_plain("LIVE"@) && is_plain("종료"@) && is_plain("상태없음"@));
    assert(is_plain("--:--"@));
    if game.game_date_time is Some {
        lemma_start_time_plain(game.game_date_time->0@);
    }
}

/// The words on the state of a game are neat.
proof fn lemma_status_words_neat(card: GameCard)
    requires
        plain_card(card),
    ensures
        is_neat(card.status_words()),
{
    broadcast use group_neat;

    let out = field_or(card.told_field(|state: GameState| state.out), "0"@);
    lemma_label_plain(card.game);
    reveal_strlit("회");
    reveal_strlit("초");
    reveal_strlit("말");
    reveal_strlit("");
    reveal_strlit(" ");
    reveal_strlit("0");
    reveal_strlit("사");
    assert(is_neat("회"@) && is_neat("초"@) && is_neat("말"@) && is_neat(""@));
    assert(is_neat(" "@) && is_neat("0"@) && is_neat("사"@));
    assert(is_plain(out));
    assert(is_neat(out));
    assert(is_neat(card.game.label()));
    assert(is_neat(card.game.start_time()));
    if card.relay is Some {
        let relay = card.relay->0;
        if relay.inn is Some {
            lemma_decimal_plain(relay.inn->0 as nat);
            assert(is_neat(decimal(relay.inn->0 as nat)));
            assert(is_neat(half_of(relay.home_or_away)));
        }
    } else if card.game.current_inning is Some {
        assert(is_neat(card.game.current_inning->0@));
    }
}

/// The title of a panel is neat.
proof fn lemma_title_neat(styled: bool, card: GameCard, competition: Competition)
    requires
        plain_card(card),
    ensures
        is_neat(" "@ + panel_title(styled, card, competition) + " "@),
{
    broadcast use group_neat;

    lemma_status_words_neat(card);
    reveal_strlit(" ");
    reveal_strlit(" · ");
    reveal_strlit("KBO");
    reveal_strlit("AG");
    reveal_strlit("● LIVE");
    assert(is_neat(" "@) && is_neat(" · "@) && is_neat("KBO"@) && is_neat("AG"@));
    assert(is_neat("● LIVE"@));
    assert(is_neat(competition.mark()));
    assert(is_neat(status_line(styled, card)));
}

/// The keys and the caption of a panel are neat.
proof fn lemma_foot_neat(styled: bool, card: GameCard, game_count: nat, now: Seq<char>)
    requires
        plain_card(card),
        is_plain(now),
    ensures
        is_neat(keys_line(styled, now)),
        is_neat(caption(styled, card, game_count)),
{
    broadcast use group_neat;

    reveal_strlit("q:종료  r:새로고침 · ");
    reveal_strlit("[");
    reveal_strlit("/");
    reveal_strlit("]");
    reveal_strlit(" ");
    reveal_strlit("vs ");
    lemma_decimal_plain((card.index + 1) as nat);
    lemma_decimal_plain(game_count);
    assert(is_neat("q:종료  r:새로고침 · "@));
    assert(is_neat("["@) && is_neat("/"@) && is_neat("]"@) && is_neat(" "@));
    assert(is_neat("vs "@));
    assert(is_neat(now));
    assert(is_neat(decimal((card.index + 1) as nat)));
    assert(is_neat(decimal(game_count)));
    assert(is_neat(card.game.away_team_name@));
    assert(is_neat(card.game.home_team_name@));
}

proof fn lemma_all_neat_concat(above: Seq<Seq<char>>, below: Seq<Seq<char>>)
    requires
        all_neat(above),
        all_neat(below),
    ensures
        all_neat(above + below),
{
}

/// What stands in a panel is neat.
proof fn lemma_panel_lines_neat(styled: bool, card: GameCard, width: nat, height: nat)
    requires
        plain_card(card),
    ensures
        all_neat(panel_lines(styled, card, width, height)),
{
    reveal(panel_head);
    reveal(panel_lines);
    let nothing = Seq::<char>::empty();
    let head = panel_head(styled, card, width);
    assert(all_neat(head)) by {
        reveal_strlit("타자");
        reveal_strlit("투수");
        reveal_strlit("─ 최근 플레이 ─");
        lemma_plain_is_neat(nothing);
        assert(is_plain("─ 최근 플레이 ─"@));
        lemma_plain_is_neat("─ 최근 플레이 ─"@);
        lemma_neat_dim(styled, "─ 최근 플레이 ─"@);
        lemma_score_line_neat(
            styled,
            card.game.away_team_name@,
            card.away_runs(),
            card.attack() == Some(Side::Away),
        );
        lemma_score_line_neat(
            styled,
            card.game.home_team_name@,
            card.home_runs(),
            card.attack() == Some(Side::Home),
        );
        lemma_field_neat(styled, card);
        lemma_duel_neat(styled, card);
        assert(is_plain("타자"@));
        assert(is_plain("투수"@));
        lemma_labelled_neat(styled, "타자"@, card.batter_text(styled));
        lemma_labelled_neat(styled, "투수"@, card.pitcher_text(styled));
        lemma_innings_neat(styled, card, width);
        let scores = seq![
            score_line(
                styled,
                card.game.away_team_name@,
                card.away_runs(),
                card.attack() == Some(Side::Away),
            ),
            score_line(
                styled,
                card.game.home_team_name@,
                card.home_runs(),
                card.attack() == Some(Side::Home),
            ),
            nothing,
        ];
        let field = field_rows(styled, card);
        let duel = seq![
            nothing,
            labelled(styled, "타자"@, card.batter_text(styled)),
            labelled(styled, "투수"@, card.pitcher_text(styled)),
            nothing,
        ];
        let innings = inning_rows(styled, card, width);
        let rule = seq![nothing, in_dim(styled, "─ 최근 플레이 ─"@)];
        lemma_all_neat_concat(scores, field);
        lemma_all_neat_concat(scores + field, duel);
        lemma_all_neat_concat(scores + field + duel, innings);
        lemma_all_neat_concat(scores + field + duel + innings, rule);
    }
    let plays = card.plays(plays_wanted(height, head.len()));
    let lines = plays.map_values(|play: Seq<char>| play_line(styled, play));
    lemma_plays_plain(card, plays_wanted(height, head.len()));
    assert forall|i: int| 0 <= i < lines.len() implies is_neat(#[trigger] lines[i]) by {
        broadcast use group_neat;

        reveal_strlit("  ");
        reveal_strlit("▸");
        reveal_strlit(" ");
        assert(is_neat("  "@) && is_neat("▸"@) && is_neat(" "@));
        assert(is_neat(plays[i]));
        assert(is_neat(play_line(styled, plays[i])));
    }
    lemma_all_neat_concat(head, lines);
}

/// A card of plain texts fits in its panel, however long its texts are: every line that is
/// drawn of it takes the columns of the panel.
pub proof fn law_plain_card_fits(
    styled: bool,
    card: GameCard,
    competition: Competition,
    game_count: nat,
    width: nat,
    height: nat,
    now: Seq<char>,
)
    requires
        plain_card(card),
        is_plain(now),
        width >= 5,
    ensures
        panel_fits(styled, card, competition, game_count, width, height, now),
{
    let room = (width - 4) as nat;
    let lines = panel_lines(styled, card, room, less(height, 5));
    lemma_title_neat(styled, card, competition);
    lemma_neat_fits(" "@ + panel_title(styled, card, competition) + " "@, (width - 3) as nat);
    lemma_panel_lines_neat(styled, card, room, less(height, 5));
    assert forall|i: int| 0 <= i < lines.len() implies fits(#[trigger] lines[i], room) by {
        lemma_neat_fits(lines[i], room);
    }
    lemma_foot_neat(styled, card, game_count, now);
    lemma_neat_fits(keys_line(styled, now), room);
    lemma_neat_fits(caption(styled, card, game_count), width);
}

} // verus!
