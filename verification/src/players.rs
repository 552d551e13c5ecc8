//! Players: how they are found and what is shown of them.
use vstd::prelude::*;

use crate::naver::{Game, Lineup, Player};
use crate::style::{bold, dim};
use crate::text::{chars_of, same_text, text_between};
#[allow(unused_imports)]
use crate::style::{in_bold, in_dim};

verus! {

/// The sides of a game.
#[derive(Clone, Copy, Debug, PartialEq, Eq, Structural)]
pub enum Side {
    Away,
    Home,
}

/// The first of `players` with the code `pcode`.
pub open spec fn first_with(pcode: Seq<char>, players: Seq<Player>) -> Option<Player>
    decreases players.len(),
{
    if players.len() == 0 {
        None
    } else if players[0].pcode@ == pcode {
        Some(players[0])
    } else {
        first_with(pcode, players.skip(1))
    }
}

/// The players of a lineup, batters before pitchers.
pub open spec fn players_of(lineup: Option<Lineup>) -> Seq<Player> {
    match lineup {
        Some(lineup) => lineup.batter@ + lineup.pitcher@,
        None => Seq::empty(),
    }
}

proof fn lemma_first_concat(pcode: Seq<char>, left: Seq<Player>, right: Seq<Player>)
    ensures
        first_with(pcode, left + right) == (if first_with(pcode, left) is Some {
            first_with(pcode, left)
        } else {
            first_with(pcode, right)
        }),
    decreases left.len(),
{
    if left.len() == 0 {
        assert(left + right == right);
    } else {
        assert((left + right).skip(1) == left.skip(1) + right);
        lemma_first_concat(pcode, left.skip(1), right);
    }
}

/// Whether `found` is the player that `expected` says.
pub open spec fn is_player(found: Option<&Player>, expected: Option<Player>) -> bool {
    match found {
        Some(player) => expected == Some(*player),
        None => expected is None,
    }
}

fn find_among<'a>(pcode: &str, players: &'a Vec<Player>) -> (found: Option<&'a Player>)
    ensures
        is_player(found, first_with(pcode@, players@)),
{
    let mut i: usize = 0;
    assert(players@.skip(0) == players@);
    while i < players.len()
        invariant
            i <= players@.len(),
            first_with(pcode@, players@) == first_with(pcode@, players@.skip(i as int)),
        decreases players@.len() - i,
    {
        assert(players@.skip(i as int).skip(1) == players@.skip(i + 1));
        if same_text(&players[i].pcode, pcode) {
            return Some(&players[i]);
        }
        i += 1;
    }
    None
}

fn find_in<'a>(pcode: &str, lineup: &'a Option<Lineup>) -> (found: Option<&'a Player>)
    ensures
        is_player(found, first_with(pcode@, players_of(*lineup))),
{
    match lineup {
        Some(lineup) => {
            proof {
                lemma_first_concat(pcode@, lineup.batter@, lineup.pitcher@);
            }
            match find_among(pcode, &lineup.batter) {
                Some(player) => Some(player),
                None => find_among(pcode, &lineup.pitcher),
            }
        },
        None => None,
    }
}

/// The first player with the code `pcode` in two lineups, batters before pitchers.
pub fn find_player<'a>(pcode: &str, lineups: [&'a Option<Lineup>; 2]) -> (found: Option<&'a Player>)
    ensures
        is_player(
            found,
            first_with(pcode@, players_of(*lineups@[0]) + players_of(*lineups@[1])),
        ),
{
    proof {
        lemma_first_concat(pcode@, players_of(*lineups@[0]), players_of(*lineups@[1]));
    }
    match find_in(pcode, lineups[0]) {
        Some(player) => Some(player),
        None => find_in(pcode, lineups[1]),
    }
}

/// A batting average as it is shown: without the zero in front.
pub open spec fn shown_average(text: Seq<char>) -> Seq<char> {
    if text.len() > 0 && text[0] == '0' {
        text.skip(1)
    } else {
        text
    }
}

/// A batting average, written with three decimals, as it is shown.
pub fn format_avg(text: &str) -> (average: String)
    ensures
        average@ == shown_average(text@),
{
    let chars = chars_of(text);
    if chars.len() > 0 && chars[0] == '0' {
        assert(chars@.subrange(1, chars@.len() as int) == chars@.skip(1));
        text_between(&chars, 1, chars.len())
    } else {
        text.to_owned()
    }
}

/// The average of the bat that is shown: the day's, or else the season's.
pub open spec fn batting(player: Player) -> Option<String> {
    if player.today_hra is Some {
        player.today_hra
    } else {
        player.season_hra
    }
}

/// The average of the pitcher that is shown: the day's, or else the season's.
pub open spec fn pitching(player: Player) -> Option<String> {
    if player.today_era is Some {
        player.today_era
    } else {
        player.season_era
    }
}

/// A player's name with an average.
pub open spec fn player_text(styled: bool, player: Player) -> Seq<char> {
    if batting(player) is Some {
        in_bold(styled, player.name@) + " "@ + in_dim(
            styled,
            "AVG "@ + shown_average(batting(player)->0@),
        )
    } else if pitching(player) is Some {
        in_bold(styled, player.name@) + " "@ + in_dim(styled, "ERA "@ + pitching(player)->0@)
    } else {
        in_bold(styled, player.name@)
    }
}

/// A player's name with the batting average, or else with the pitching average.
pub fn player_label(styled: bool, player: &Player) -> (label: String)
    ensures
        label@ == player_text(styled, *player),
{
    let batting = match &player.today_hra {
        Some(average) => Some(average),
        None => player.season_hra.as_ref(),
    };
    if let Some(average) = batting {
        return bold(styled, &player.name).concat(" ").concat(
            &dim(styled, &"AVG ".to_owned().concat(&format_avg(average))),
        );
    }
    let pitching = match &player.today_era {
        Some(average) => Some(average),
        None => player.season_era.as_ref(),
    };
    if let Some(average) = pitching {
        return bold(styled, &player.name).concat(" ").concat(
            &dim(styled, &"ERA ".to_owned().concat(average)),
        );
    }
    bold(styled, &player.name)
}

/// The starting pitchers of both teams.
pub open spec fn starters_text(styled: bool, game: Game) -> Seq<char> {
    match (game.away_starter_name, game.home_starter_name) {
        (Some(away), Some(home)) => if away@.len() > 0 || home@.len() > 0 {
            in_dim(styled, "선발"@) + " "@ + away@ + " "@ + in_dim(styled, "vs"@) + " "@ + home@
        } else {
            in_dim(styled, "-"@)
        },
        _ => in_dim(styled, "-"@),
    }
}

/// The starting pitchers of both teams, where both are told and one has a name.
pub fn format_starters(styled: bool, game: &Game) -> (line: String)
    ensures
        line@ == starters_text(styled, *game),
{
    match (&game.away_starter_name, &game.home_starter_name) {
        (Some(away), Some(home)) => {
            if !away.as_str().is_empty() || !home.as_str().is_empty() {
                dim(styled, "선발").concat(" ").concat(away).concat(" ").concat(
                    &dim(styled, "vs"),
                ).concat(" ").concat(home)
            } else {
                dim(styled, "-")
            }
        },
        _ => dim(styled, "-"),
    }
}

/// The name of a pitcher: the current one, or else the starting one.
pub open spec fn pitcher_name(styled: bool, current: Option<String>, starter: Option<String>) -> Seq<
    char,
> {
    match current {
        Some(name) => in_bold(styled, name@),
        None => match starter {
            Some(name) => in_bold(styled, name@),
            None => in_dim(styled, "-"@),
        },
    }
}

fn name_pitcher(styled: bool, current: &Option<String>, starter: &Option<String>) -> (line: String)
    ensures
        line@ == pitcher_name(styled, *current, *starter),
{
    match current {
        Some(name) => bold(styled, name),
        None => match starter {
            Some(name) => bold(styled, name),
            None => dim(styled, "-"),
        },
    }
}

/// The pitcher that a game tells of without its relay: of the team in the field, or
/// both starters where the team at bat is not known.
pub open spec fn told_pitcher(styled: bool, game: Game, attack: Option<Side>) -> Seq<char> {
    match attack {
        Some(Side::Away) => pitcher_name(
            styled,
            game.home_current_pitcher_name,
            game.home_starter_name,
        ),
        Some(Side::Home) => pitcher_name(
            styled,
            game.away_current_pitcher_name,
            game.away_starter_name,
        ),
        None => starters_text(styled, game),
    }
}

/// The pitcher that a game tells of without its relay.
pub fn current_pitcher_fallback(styled: bool, game: &Game, attack: Option<Side>) -> (line: String)
    ensures
        line@ == told_pitcher(styled, *game, attack),
{
    match attack {
        Some(Side::Away) => name_pitcher(
            styled,
            &game.home_current_pitcher_name,
            &game.home_starter_name,
        ),
        Some(Side::Home) => name_pitcher(
            styled,
            &game.away_current_pitcher_name,
            &game.away_starter_name,
        ),
        None => format_starters(styled, game),
    }
}

/// The first player with a code is found, whoever follows.
pub proof fn law_first_player_is_found(pcode: Seq<char>, players: Seq<Player>, k: int)
    requires
        0 <= k < players.len(),
        players[k].pcode@ == pcode,
        forall|j: int| 0 <= j < k ==> (#[trigger] players[j]).pcode@ != pcode,
    ensures
        first_with(pcode, players) == Some(players[k]),
    decreases players.len(),
{
    if k > 0 {
        let rest = players.skip(1);
        assert(players[0].pcode@ != pcode);
        assert forall|j: int| 0 <= j < k - 1 implies (#[trigger] rest[j]).pcode@ != pcode by {
            assert(players[j + 1].pcode@ != pcode);
        }
        law_first_player_is_found(pcode, rest, k - 1);
    }
}

/// Nobody is found where nobody has the code.
pub proof fn law_no_player_is_found(pcode: Seq<char>, players: Seq<Player>)
    requires
        forall|j: int| 0 <= j < players.len() ==> (#[trigger] players[j]).pcode@ != pcode,
    ensures
        first_with(pcode, players) is None,
    decreases players.len(),
{
    if players.len() > 0 {
        let rest = players.skip(1);
        assert forall|j: int| 0 <= j < rest.len() implies (#[trigger] rest[j]).pcode@ != pcode by {
            assert(players[j + 1].pcode@ != pcode);
        }
        law_no_player_is_found(pcode, rest);
    }
}

/// The players of a lineup are its batters, then its pitchers.
pub proof fn law_batters_before_pitchers(lineup: Option<Lineup>)
    ensures
        lineup is None ==> players_of(lineup).len() == 0,
        lineup matches Some(own) ==> players_of(lineup) == own.batter@ + own.pitcher@,
{
}

/// An average below one is shown without its zero, every other one as it is.
pub proof fn law_average_loses_its_zero(text: Seq<char>)
    ensures
        shown_average(seq!['0'] + text) == text,
        text.len() == 0 || text[0] != '0' ==> shown_average(text) == text,
{
    assert((seq!['0'] + text).skip(1) =~= text);
}

/// A player is shown with the batting average, the day's before the season's; without one
/// with the earned runs, the day's before the season's; and without either by name alone.
/// The name is bold and the average faint.
pub proof fn law_player_shows_an_average(styled: bool, player: Player)
    ensures
        ({
            let name = in_bold(styled, player.name@) + " "@;
            &&& player.today_hra matches Some(avg) ==> player_text(styled, player) == name + in_dim(
                styled,
                "AVG "@ + shown_average(avg@),
            )
            &&& player.today_hra is None && player.season_hra is Some ==> player_text(
                styled,
                player,
            ) == name + in_dim(styled, "AVG "@ + shown_average(player.season_hra->0@))
            &&& player.today_hra is None && player.season_hra is None && player.today_era is Some
                ==> player_text(styled, player) == name + in_dim(
                styled,
                "ERA "@ + player.today_era->0@,
            )
            &&& player.today_hra is None && player.season_hra is None && player.today_era is None
                && player.season_era is Some ==> player_text(styled, player) == name + in_dim(
                styled,
                "ERA "@ + player.season_era->0@,
            )
            &&& player.today_hra is None && player.season_hra is None && player.today_era is None
                && player.season_era is None ==> player_text(styled, player) == in_bold(
                styled,
                player.name@,
            )
        }),
{
}

/// Both starters are told, the away team's first, where both fields are there and one of
/// them has a name.
pub proof fn law_starters_are_told(styled: bool, game: Game)
    ensures
        game.away_starter_name is Some && game.home_starter_name is Some && (
        game.away_starter_name->0@.len() > 0 || game.home_starter_name->0@.len() > 0) ==> starters_text(styled, game) == in_dim(
            styled,
            "선발"@,
        ) + " "@ + game.away_starter_name->0@ + " "@ + in_dim(styled, "vs"@) + " "@
            + game.home_starter_name->0@,
        game.away_starter_name is None || game.home_starter_name is None || (
        game.away_starter_name->0@.len() == 0 && game.home_starter_name->0@.len() == 0)
            ==> starters_text(styled, game) == in_dim(styled, "-"@),
{
}

/// While a team bats, the pitcher is the other team's: the current one, or else the starting
/// one, or else nobody. While nobody is said to bat, both starters are told.
pub proof fn law_pitcher_faces_the_side_at_bat(styled: bool, game: Game)
    ensures
        game.home_current_pitcher_name matches Some(name) ==> told_pitcher(
            styled,
            game,
            Some(Side::Away),
        ) == in_bold(styled, name@),
        game.home_current_pitcher_name is None && game.home_starter_name is Some ==> told_pitcher(
            styled,
            game,
            Some(Side::Away),
        ) == in_bold(styled, game.home_starter_name->0@),
        game.home_current_pitcher_name is None && game.home_starter_name is None ==> told_pitcher(
            styled,
            game,
            Some(Side::Away),
        ) == in_dim(styled, "-"@),
        game.away_current_pitcher_name matches Some(name) ==> told_pitcher(
            styled,
            game,
            Some(Side::Home),
        ) == in_bold(styled, name@),
        game.away_current_pitcher_name is None && game.away_starter_name is Some ==> told_pitcher(
            styled,
            game,
            Some(Side::Home),
        ) == in_bold(styled, game.away_starter_name->0@),
        game.away_current_pitcher_name is None && game.away_starter_name is None ==> told_pitcher(
            styled,
            game,
            Some(Side::Home),
        ) == in_dim(styled, "-"@),
        told_pitcher(styled, game, None) == starters_text(styled, game),
{
}

} // verus!
