//! A game as the board knows it: the schedule's entry, the relay and its events.
use vstd::prelude::*;

use crate::naver::{field_is, text_or, Game, GamePollingResult, GameState, TextRelayData};
use crate::number::{parse_i32, parse_usize, write_decimal};
use crate::players::{
    current_pitcher_fallback, find_player, format_starters, player_label, Side,
};
use crate::relay::{collect_events, latest_state, RelayEvent};
use crate::scores::ScoreTable;
use crate::text::{same_text, single_line};
#[allow(unused_imports)]
use crate::{
    naver::{field_or, holds},
    naver::Player,
    number::{decimal, law_numbers_are_digits, parsed_count, parsed_integer},
    players::{
        first_with, law_first_player_is_found, law_no_player_is_found, player_text, players_of,
        starters_text, told_pitcher,
    },
    relay::{
        current_state, in_order, is_numbered, is_play, law_events_are_first_plays,
        law_every_play_is_told, law_numbers_rise, numbers_fit, relayed, told,
    },
    scores::{
        highest_inning, inning_of, is_highest, law_highest_inning, lemma_highest_inning,
    },
    text::{squeezed, trimmed},
};

verus! {

/// A game as the board knows it.
#[derive(Debug)]
pub struct GameCard {
    pub index: usize,
    pub game: Game,
    pub relay: Option<TextRelayData>,
    pub latest_events: Vec<RelayEvent>,
    pub state: Option<GameState>,
    pub error: Option<String>,
}

/// The bases with a runner on them.
#[derive(Clone, Copy, Debug, PartialEq, Eq, Structural)]
pub struct Bases {
    pub first: bool,
    pub second: bool,
    pub third: bool,
}

impl Default for Bases {
    fn default() -> (bases: Self)
        ensures
            !bases.first && !bases.second && !bases.third,
    {
        Bases { first: false, second: false, third: false }
    }
}

/// The first state that `events` tell.
pub open spec fn first_state(events: Seq<RelayEvent>) -> Option<GameState>
    decreases events.len(),
{
    if events.len() == 0 {
        None
    } else if events[0].state is Some {
        events[0].state
    } else {
        first_state(events.skip(1))
    }
}

fn find_state(events: &Vec<RelayEvent>) -> (state: Option<GameState>)
    ensures
        state == first_state(events@),
{
    let mut i: usize = 0;
    assert(events@.skip(0) == events@);
    while i < events.len()
        invariant
            i <= events@.len(),
            first_state(events@) == first_state(events@.skip(i as int)),
        decreases events@.len() - i,
    {
        assert(events@.skip(i as int).skip(1) == events@.skip(i + 1));
        if events[i].state.is_some() {
            return events[i].state.clone();
        }
        i += 1;
    }
    None
}

/// The items of a list, the last one first.
fn reversed<T>(items: Vec<T>) -> (turned: Vec<T>)
    ensures
        turned@ == items@.reverse(),
{
    let mut rest = items;
    let mut turned: Vec<T> = Vec::new();
    assert(rest@ + turned@.reverse() =~= items@);
    while rest.len() > 0
        invariant
            rest@ + turned@.reverse() == items@,
        decreases rest@.len(),
    {
        let ghost before = rest@;
        let ghost later = turned@;
        if let Some(item) = rest.pop() {
            turned.push(item);
        }
        assert(turned@.reverse() =~= seq![before.last()] + later.reverse());
        assert(rest@ + turned@.reverse() =~= before + later.reverse());
    }
    assert(rest@ + turned@.reverse() =~= turned@.reverse());
    assert(turned@ =~= items@.reverse());
    turned
}

/// The texts of `lines`.
pub open spec fn texts(lines: Seq<String>) -> Seq<Seq<char>> {
    lines.map_values(|line: String| line@)
}

/// The runs that a table gives for an inning.
pub open spec fn runs_in(table: Map<Seq<char>, Seq<char>>, inning: nat) -> Seq<char> {
    if table.dom().contains(decimal(inning)) {
        table[decimal(inning)]
    } else {
        "-"@
    }
}

/// The runs that a table gives for the first `count` innings.
pub open spec fn runs_by_inning(table: Map<Seq<char>, Seq<char>>, count: nat) -> Seq<Seq<char>> {
    Seq::new(count, |i: int| runs_in(table, (i + 1) as nat))
}

fn list_runs(table: &ScoreTable, count: usize) -> (runs: Vec<String>)
    ensures
        texts(runs@) == runs_by_inning(table@, count as nat),
{
    let mut runs: Vec<String> = Vec::new();
    let mut inning: usize = 0;
    assert(texts(runs@) =~= runs_by_inning(table@, 0));
    while inning < count
        invariant
            inning <= count,
            texts(runs@) == runs_by_inning(table@, inning as nat),
        decreases count - inning,
    {
        let ghost before = runs@;
        inning += 1;
        let run = match table.get(&write_decimal(inning as u64)) {
            Some(run) => run.clone(),
            None => "-".to_owned(),
        };
        runs.push(run);
        assert(texts(runs@) =~= texts(before).push(run@));
        assert(texts(runs@) =~= runs_by_inning(table@, inning as nat));
    }
    runs
}

/// The scores that are not empty.
pub open spec fn given_scores(scores: Seq<Seq<char>>) -> Seq<Seq<char>> {
    scores.filter(|score: Seq<char>| score.len() > 0)
}

/// The scores that are not empty.
pub fn non_empty_scores(scores: &Vec<String>) -> (given: Vec<String>)
    ensures
        texts(given@) == given_scores(texts(scores@)),
{
    let mut given: Vec<String> = Vec::new();
    let ghost all = texts(scores@);
    let ghost keep = |score: Seq<char>| score.len() > 0;
    let mut i: usize = 0;
    proof {
        reveal(Seq::filter);
        assert(texts(given@) =~= all.take(0).filter(keep));
    }
    while i < scores.len()
        invariant
            i <= scores@.len(),
            all == texts(scores@),
            keep == (|score: Seq<char>| score.len() > 0),
            texts(given@) == all.take(i as int).filter(keep),
        decreases scores@.len() - i,
    {
        proof {
            reveal(Seq::filter);
            assert(all.take(i + 1).drop_last() == all.take(i as int));
            assert(all.take(i + 1).last() == scores@[i as int]@);
        }
        let ghost before = given@;
        if !scores[i].as_str().is_empty() {
            let score = scores[i].clone();
            given.push(score);
            assert(texts(given@) =~= texts(before).push(score@));
        }
        i += 1;
    }
    assert(all.take(i as int) == all);
    given
}

/// The half of an inning: its top for the away team at bat, its bottom for the home
/// team.
pub open spec fn half_of(side: Option<String>) -> Seq<char> {
    if holds(side, "0"@) {
        "초"@
    } else if holds(side, "1"@) {
        "말"@
    } else {
        ""@
    }
}

/// The half of an inning.
pub fn half_label(value: &Option<String>) -> (label: &'static str)
    ensures
        label@ == half_of(*value),
{
    if field_is(value, "0") {
        "초"
    } else if field_is(value, "1") {
        "말"
    } else {
        ""
    }
}

/// Whether a base has a runner: it is told, and neither empty nor zero.
pub open spec fn is_occupied(base: Option<String>) -> bool {
    base is Some && base->0@.len() > 0 && base->0@ != "0"@
}

/// Whether a base has a runner.
pub fn occupied(value: &Option<String>) -> (taken: bool)
    ensures
        taken == is_occupied(*value),
{
    match value {
        Some(runner) => !runner.as_str().is_empty() && !same_text(runner, "0"),
        None => false,
    }
}

/// The count that a field tells, or zero.
pub open spec fn counted_as(field: Option<String>) -> nat {
    match field {
        Some(text) => match parsed_count(text@, usize::MAX as nat) {
            Some(count) => count,
            None => 0,
        },
        None => 0,
    }
}

/// The count that a field tells, or zero.
pub fn parse_count(value: &Option<String>) -> (count: usize)
    ensures
        count == counted_as(*value),
{
    match value {
        Some(text) => match parse_usize(text) {
            Some(count) => count,
            None => 0,
        },
        None => 0,
    }
}

/// The runs of a team: those that the relay tells, or else those of the schedule, or
/// else none.
pub open spec fn runs_of(told: Option<String>, scheduled: Option<i32>) -> int {
    if told is Some && parsed_integer(told->0@) is Some {
        parsed_integer(told->0@)->0
    } else if scheduled is Some {
        scheduled->0 as int
    } else {
        0
    }
}

fn find_runs(told: Option<&String>, scheduled: Option<i32>) -> (runs: i32)
    ensures
        runs == runs_of(
            match told {
                Some(text) => Some(*text),
                None => None,
            },
            scheduled,
        ),
{
    if let Some(text) = told {
        if let Some(runs) = parse_i32(text) {
            return runs;
        }
    }
    scheduled.unwrap_or(0)
}

/// The different texts among `lines`, each put on one line, without empty ones, in the
/// order in which they first occur.
pub open spec fn different(lines: Seq<Seq<char>>) -> Seq<Seq<char>>
    decreases lines.len(),
{
    if lines.len() == 0 {
        Seq::empty()
    } else {
        let before = different(lines.drop_last());
        let line = squeezed(lines.last());
        if line.len() == 0 || before.contains(line) {
            before
        } else {
            before.push(line)
        }
    }
}

/// The texts of events.
pub open spec fn event_texts(events: Seq<RelayEvent>) -> Seq<Seq<char>> {
    events.map_values(|event: RelayEvent| event.text@)
}

/// More lines only add to the different ones.
proof fn lemma_different_grows(lines: Seq<Seq<char>>, count: int)
    requires
        0 <= count <= lines.len(),
    ensures
        different(lines.take(count)).len() <= different(lines).len(),
        different(lines).take(different(lines.take(count)).len() as int) == different(
            lines.take(count),
        ),
    decreases lines.len(),
{
    if count == lines.len() {
        assert(lines.take(count) == lines);
    } else {
        let before = lines.drop_last();
        assert(before.take(count) == lines.take(count));
        lemma_different_grows(before, count);
        let some = different(lines.take(count));
        assert(different(lines).take(some.len() as int) =~= different(before).take(
            some.len() as int,
        ));
    }
}

/// The plays to show: `max` different ones at most, but one at least.
pub open spec fn plays_of(lines: Seq<Seq<char>>, max: nat) -> Seq<Seq<char>> {
    let plays = different(lines);
    let limit = if max == 0 {
        1
    } else {
        max
    };
    if plays.len() <= limit {
        plays
    } else {
        plays.take(limit as int)
    }
}

fn contains_text(lines: &Vec<String>, text: &str) -> (found: bool)
    ensures
        found == texts(lines@).contains(text@),
{
    let mut i: usize = 0;
    while i < lines.len()
        invariant
            i <= lines@.len(),
            forall|j: int| 0 <= j < i ==> (#[trigger] lines@[j])@ != text@,
        decreases lines@.len() - i,
    {
        if same_text(&lines[i], text) {
            assert(texts(lines@)[i as int] == text@);
            return true;
        }
        i += 1;
    }
    proof {
        if texts(lines@).contains(text@) {
            let j = choose|j: int| 0 <= j < lines@.len() && texts(lines@)[j] == text@;
            assert(lines@[j]@ == text@);
        }
    }
    false
}

/// The different texts of `events`, `max` at most, but one at least where there is one.
fn list_plays(events: &Vec<RelayEvent>, max: usize) -> (plays: Vec<String>)
    ensures
        texts(plays@) == plays_of(event_texts(events@), max as nat),
{
    let ghost lines = event_texts(events@);
    let mut plays: Vec<String> = Vec::new();
    let mut i: usize = 0;
    assert(texts(plays@) =~= different(lines.take(0)));
    while i < events.len()
        invariant
            i <= events@.len(),
            lines == event_texts(events@),
            texts(plays@) == different(lines.take(i as int)),
            plays@.len() == 0 || plays@.len() < max,
        decreases events@.len() - i,
    {
        assert(lines.take(i + 1).drop_last() == lines.take(i as int));
        let text = single_line(&events[i].text);
        i += 1;
        if text.as_str().is_empty() || contains_text(&plays, &text) {
            continue;
        }
        let ghost before = plays@;
        plays.push(text);
        assert(texts(plays@) =~= texts(before).push(text@));
        if plays.len() >= max {
            proof {
                lemma_different_grows(lines, i as int);
            }
            return plays;
        }
    }
    assert(lines.take(i as int) == lines);
    plays
}

/// Whether `card` is what a poll of a game makes: the events of the relay newest first,
/// and the newest state that they tell, or else the current one of the relay.
pub open spec fn is_polled(
    card: GameCard,
    index: int,
    game: Game,
    relay: Option<TextRelayData>,
) -> bool {
    &&& card.index == index
    &&& card.game == game
    &&& card.relay == relay
    &&& card.error is None
    &&& match relay {
        Some(data) => in_order(told(card.latest_events@.reverse()), relayed(data.text_relays@)),
        None => card.latest_events@.len() == 0,
    }
    &&& card.state == (if first_state(card.latest_events@) is Some {
        first_state(card.latest_events@)
    } else if relay is Some {
        current_state(relay->0)
    } else {
        None
    })
}

impl GameCard {
    /// A card from a poll of the game.
    pub fn from_polling(index: usize, game: Game, relay: Option<TextRelayData>) -> (card: Self)
        requires
            relay is Some ==> numbers_fit(relay->0.text_relays@),
        ensures
            is_polled(card, index as int, game, relay),
    {
        let latest_events = match &relay {
            Some(data) => {
                let events = collect_events(data);
                let newest = reversed(events);
                assert(newest@.reverse() =~= events@);
                newest
            },
            None => Vec::new(),
        };
        let state = match find_state(&latest_events) {
            Some(state) => Some(state),
            None => match &relay {
                Some(data) => latest_state(data),
                None => None,
            },
        };
        GameCard { index, game, relay, latest_events, state, error: None }
    }

    /// A card of a game that could not be polled.
    pub fn from_error(index: usize, game: Game, error: String) -> (card: Self)
        ensures
            card.index == index,
            card.game == game,
            card.relay is None,
            card.latest_events@.len() == 0,
            card.state is None,
            card.error == Some(error),
    {
        GameCard {
            index,
            game,
            relay: None,
            latest_events: Vec::new(),
            state: None,
            error: Some(error),
        }
    }

    /// A field of the state, where there is a state.
    pub open spec fn told_field(self, field: spec_fn(GameState) -> Option<String>) -> Option<
        String,
    > {
        match self.state {
            Some(state) => field(state),
            None => None,
        }
    }

    /// The runs of the away team.
    pub open spec fn away_runs(self) -> int {
        runs_of(self.told_field(|state: GameState| state.away_score), self.game.away_team_score)
    }

    /// The runs of the home team.
    pub open spec fn home_runs(self) -> int {
        runs_of(self.told_field(|state: GameState| state.home_score), self.game.home_team_score)
    }

    /// The runs of the away team and of the home team.
    pub fn score(&self) -> (runs: (i32, i32))
        ensures
            runs.0 == self.away_runs(),
            runs.1 == self.home_runs(),
            self.state is None ==> runs.0 == self.game.away_team_score.unwrap_or(0) && runs.1
                == self.game.home_team_score.unwrap_or(0),
            self.state matches Some(state) ==> {
                &&& runs.0 == runs_of(state.away_score, self.game.away_team_score)
                &&& runs.1 == runs_of(state.home_score, self.game.home_team_score)
            },
    {
        match &self.state {
            Some(state) => (
                find_runs(state.away_score.as_ref(), self.game.away_team_score),
                find_runs(state.home_score.as_ref(), self.game.home_team_score),
            ),
            None => (
                find_runs(None, self.game.away_team_score),
                find_runs(None, self.game.home_team_score),
            ),
        }
    }

    /// The words on the state of the game: the half inning and the outs from the relay,
    /// or else how it ended, or else its label and start.
    pub open spec fn status_words(self) -> Seq<char> {
        match self.relay {
            Some(relay) => {
                let inning = match relay.inn {
                    Some(inn) => decimal(inn as nat) + "회"@ + half_of(relay.home_or_away),
                    None => self.game.label(),
                };
                inning + " "@ + field_or(
                    self.told_field(|state: GameState| state.out),
                    "0"@,
                ) + "사"@
            },
            None => if self.game.finished() {
                field_or(self.game.current_inning, self.game.label())
            } else {
                self.game.label() + " "@ + self.game.start_time()
            },
        }
    }

    /// Words the state of the game.
    pub fn header_status(&self) -> (words: String)
        ensures
            words@ == self.status_words(),
    {
        if let Some(relay) = &self.relay {
            let inning = match relay.inn {
                Some(inn) => write_decimal(inn as u64).concat("회").concat(
                    half_label(&relay.home_or_away),
                ),
                None => self.game.status_label().to_owned(),
            };
            let outs = match &self.state {
                Some(state) => text_or(&state.out, "0"),
                None => "0",
            };
            return inning.concat(" ").concat(outs).concat("사");
        }
        if self.game.is_finished() {
            text_or(&self.game.current_inning, self.game.status_label()).to_owned()
        } else {
            self.game.status_label().to_owned().concat(" ").concat(&self.game.starts_at_hhmm())
        }
    }

    /// The side at bat, where the relay tells it.
    pub open spec fn attack(self) -> Option<Side> {
        match self.relay {
            Some(relay) => if holds(relay.home_or_away, "0"@) {
                Some(Side::Away)
            } else if holds(relay.home_or_away, "1"@) {
                Some(Side::Home)
            } else {
                None
            },
            None => None,
        }
    }

    /// The side at bat, where the relay tells it.
    pub fn attack_side(&self) -> (side: Option<Side>)
        ensures
            side == self.attack(),
    {
        match &self.relay {
            Some(relay) => if field_is(&relay.home_or_away, "0") {
                Some(Side::Away)
            } else if field_is(&relay.home_or_away, "1") {
                Some(Side::Home)
            } else {
                None
            },
            None => None,
        }
    }

    /// The bases with a runner on them.
    pub open spec fn runners(self) -> Bases {
        Bases {
            first: is_occupied(self.told_field(|state: GameState| state.base1)),
            second: is_occupied(self.told_field(|state: GameState| state.base2)),
            third: is_occupied(self.told_field(|state: GameState| state.base3)),
        }
    }

    /// The bases with a runner on them.
    pub fn bases(&self) -> (bases: Bases)
        ensures
            bases == self.runners(),
            self.state is None ==> !bases.first && !bases.second && !bases.third,
            self.state matches Some(state) ==> {
                &&& bases.first <==> (state.base1 is Some && state.base1->0@.len() > 0
                    && state.base1->0@ != "0"@)
                &&& bases.second <==> (state.base2 is Some && state.base2->0@.len() > 0
                    && state.base2->0@ != "0"@)
                &&& bases.third <==> (state.base3 is Some && state.base3->0@.len() > 0
                    && state.base3->0@ != "0"@)
            },
    {
        match &self.state {
            Some(state) => Bases {
                first: occupied(&state.base1),
                second: occupied(&state.base2),
                third: occupied(&state.base3),
            },
            None => Bases::default(),
        }
    }

    /// The balls against the batter.
    pub fn balls(&self) -> (count: usize)
        ensures
            count == counted_as(self.told_field(|state: GameState| state.ball)),
            self.state is None ==> count == 0,
            self.state matches Some(state) ==> count == counted_as(state.ball),
    {
        match &self.state {
            Some(state) => parse_count(&state.ball),
            None => 0,
        }
    }

    /// The strikes against the batter.
    pub fn strikes(&self) -> (count: usize)
        ensures
            count == counted_as(self.told_field(|state: GameState| state.strike)),
            self.state is None ==> count == 0,
            self.state matches Some(state) ==> count == counted_as(state.strike),
    {
        match &self.state {
            Some(state) => parse_count(&state.strike),
            None => 0,
        }
    }

    /// The outs of the half inning.
    pub fn outs(&self) -> (count: usize)
        ensures
            count == counted_as(self.told_field(|state: GameState| state.out)),
            self.state is None ==> count == 0,
            self.state matches Some(state) ==> count == counted_as(state.out),
    {
        match &self.state {
            Some(state) => parse_count(&state.out),
            None => 0,
        }
    }

    /// The players of the team at bat, or of the team in the field.
    pub open spec fn squad(self, at_bat: bool) -> Seq<crate::naver::Player> {
        match (self.relay, self.attack()) {
            (Some(relay), Some(side)) => if (side == Side::Away) == at_bat {
                players_of(relay.away_lineup) + players_of(relay.away_entry)
            } else {
                players_of(relay.home_lineup) + players_of(relay.home_entry)
            },
            _ => Seq::empty(),
        }
    }

    /// The player of a team whom the state names.
    pub open spec fn named_player(self, pcode: Option<String>, at_bat: bool) -> Option<
        crate::naver::Player,
    > {
        match pcode {
            Some(pcode) => first_with(pcode@, self.squad(at_bat)),
            None => None,
        }
    }

    /// The batter: the player of the team at bat whom the state names.
    pub open spec fn batter_text(self, styled: bool) -> Seq<char> {
        match self.named_player(self.told_field(|state: GameState| state.batter), true) {
            Some(player) => player_text(styled, player),
            None => "-"@,
        }
    }

    /// Shows the batter.
    pub fn current_batter(&self, styled: bool) -> (line: String)
        ensures
            line@ == self.batter_text(styled),
    {
        let relay = match &self.relay {
            Some(relay) => relay,
            None => return "-".to_owned(),
        };
        let pcode = match &self.state {
            Some(state) => match &state.batter {
                Some(pcode) => pcode,
                None => return "-".to_owned(),
            },
            None => return "-".to_owned(),
        };
        let lineups = match self.attack_side() {
            Some(Side::Away) => [&relay.away_lineup, &relay.away_entry],
            Some(Side::Home) => [&relay.home_lineup, &relay.home_entry],
            None => return "-".to_owned(),
        };
        match find_player(pcode, lineups) {
            Some(player) => player_label(styled, player),
            None => "-".to_owned(),
        }
    }

    /// The pitcher: the player of the team in the field whom the state names, or else
    /// whom the schedule tells.
    pub open spec fn pitcher_text(self, styled: bool) -> Seq<char> {
        if self.relay is None {
            starters_text(styled, self.game)
        } else {
            match self.named_player(self.told_field(|state: GameState| state.pitcher), false) {
                Some(player) => player_text(styled, player),
                None => told_pitcher(styled, self.game, self.attack()),
            }
        }
    }

    /// Shows the pitcher.
    pub fn current_pitcher(&self, styled: bool) -> (line: String)
        ensures
            line@ == self.pitcher_text(styled),
    {
        let relay = match &self.relay {
            Some(relay) => relay,
            None => return format_starters(styled, &self.game),
        };
        let attack = self.attack_side();
        let pcode = match &self.state {
            Some(state) => match &state.pitcher {
                Some(pcode) => pcode,
                None => return current_pitcher_fallback(styled, &self.game, attack),
            },
            None => return current_pitcher_fallback(styled, &self.game, attack),
        };
        let lineups = match attack {
            Some(Side::Away) => [&relay.home_lineup, &relay.home_entry],
            Some(Side::Home) => [&relay.away_lineup, &relay.away_entry],
            None => return current_pitcher_fallback(styled, &self.game, attack),
        };
        match find_player(pcode, lineups) {
            Some(player) => player_label(styled, player),
            None => current_pitcher_fallback(styled, &self.game, attack),
        }
    }

    /// The runs by inning of the away team and of the home team: from the relay's
    /// tables up to the highest inning that one of them names, or else from the
    /// schedule.
    pub open spec fn lines(self) -> (Seq<Seq<char>>, Seq<Seq<char>>) {
        if self.relay is Some && self.relay->0.inning_score is Some {
            let score = self.relay->0.inning_score->0;
            let count = highest_inning(score.home@.dom() + score.away@.dom()).unwrap_or(1);
            (runs_by_inning(score.away@, count), runs_by_inning(score.home@, count))
        } else {
            (
                given_scores(texts(self.game.away_team_score_by_inning@)),
                given_scores(texts(self.game.home_team_score_by_inning@)),
            )
        }
    }

    /// The runs by inning of the away team and of the home team.
    pub fn inning_lines(&self) -> (lines: (Vec<String>, Vec<String>))
        ensures
            texts(lines.0@) == self.lines().0,
            texts(lines.1@) == self.lines().1,
    {
        if let Some(relay) = &self.relay {
            if let Some(score) = &relay.inning_score {
                let home = score.home.highest();
                let away = score.away.highest();
                let count: usize = match (home, away) {
                    (Some(h), Some(a)) => if h >= a {
                        h
                    } else {
                        a
                    },
                    (Some(h), None) => h,
                    (None, Some(a)) => a,
                    (None, None) => 1,
                };
                proof {
                    let names = score.home@.dom() + score.away@.dom();
                    if home is Some || away is Some {
                        let from_home = home is Some && home->0 == count;
                        let table = if from_home {
                            score.home@.dom()
                        } else {
                            score.away@.dom()
                        };
                        assert(is_highest(table, count as nat));
                        let name = choose|name: Seq<char>|
                            table.contains(name) && #[trigger] inning_of(name) == Some(
                                count as nat,
                            );
                        assert(names.contains(name));
                        assert(is_highest(names, count as nat));
                        lemma_highest_inning(names, count as nat);
                    } else {
                        assert forall|n: nat| !is_highest(names, n) by {
                            if is_highest(names, n) {
                                let name = choose|name: Seq<char>|
                                    names.contains(name) && #[trigger] inning_of(name) == Some(n);
                                assert(inning_of(name) is None);
                            }
                        }
                    }
                }
                return (list_runs(&score.away, count), list_runs(&score.home, count));
            }
        }
        (
            non_empty_scores(&self.game.away_team_score_by_inning),
            non_empty_scores(&self.game.home_team_score_by_inning),
        )
    }

    /// The plays to show: why the game could not be polled, or its latest events, or
    /// that there are none.
    pub open spec fn plays(self, max: nat) -> Seq<Seq<char>> {
        if self.error is Some {
            seq!["API 오류: "@ + squeezed(self.error->0@)]
        } else {
            let plays = plays_of(event_texts(self.latest_events@), max);
            if plays.len() > 0 {
                plays
            } else if self.game.finished() {
                seq!["문자중계 없음"@]
            } else {
                seq!["문자중계 대기 중"@]
            }
        }
    }

    /// Lists the plays to show.
    pub fn recent_plays(&self, max: usize) -> (plays: Vec<String>)
        ensures
            texts(plays@) == self.plays(max as nat),
    {
        if let Some(error) = &self.error {
            let line = "API 오류: ".to_owned().concat(&single_line(error));
            let plays = vec![line];
            assert(texts(plays@) =~= seq![line@]);
            return plays;
        }
        let mut plays = list_plays(&self.latest_events, max);
        if plays.len() == 0 {
            let line = if self.game.is_finished() {
                "문자중계 없음".to_owned()
            } else {
                "문자중계 대기 중".to_owned()
            };
            plays.push(line);
            assert(texts(plays@) =~= seq![line@]);
        }
        plays
    }
}

/// Whether the events of an answer have numbers that fit in 64 bits.
pub open spec fn reply_fits(reply: Result<GamePollingResult, String>) -> bool {
    reply is Ok && reply->Ok_0.text_relay_data is Some ==> numbers_fit(
        reply->Ok_0.text_relay_data->0.text_relays@,
    )
}

/// Whether `card` is what a game and the answer to its poll make.
pub open spec fn is_card(
    card: GameCard,
    index: int,
    game: Game,
    reply: Result<GamePollingResult, String>,
) -> bool {
    match reply {
        Ok(polling) => is_polled(card, index, polling.game, polling.text_relay_data),
        Err(error) => {
            &&& card.index == index
            &&& card.game == game
            &&& card.relay is None
            &&& card.latest_events@.len() == 0
            &&& card.state is None
            &&& card.error == Some(error)
        },
    }
}

/// A card from the schedule's entry of a game and the answer to its poll.
pub fn card_for(index: usize, game: Game, reply: Result<GamePollingResult, String>) -> (card:
    GameCard)
    requires
        reply_fits(reply),
    ensures
        is_card(card, index as int, game, reply),
{
    match reply {
        Ok(polling) => GameCard::from_polling(index, polling.game, polling.text_relay_data),
        Err(error) => GameCard::from_error(index, game, error),
    }
}

/// The cards of all games of a day, each with the answer to its poll.
pub fn build_cards(games: Vec<Game>, replies: Vec<Result<GamePollingResult, String>>) -> (cards:
    Vec<GameCard>)
    requires
        games@.len() == replies@.len(),
        forall|i: int| 0 <= i < replies@.len() ==> reply_fits(#[trigger] replies@[i]),
    ensures
        cards@.len() == games@.len(),
        forall|i: int|
            0 <= i < cards@.len() ==> is_card(#[trigger] cards@[i], i, games@[i], replies@[i]),
{
    let ghost all_games = games@;
    let ghost all_replies = replies@;
    let mut waiting = reversed(games);
    let mut answers = reversed(replies);
    let mut cards: Vec<GameCard> = Vec::new();
    while waiting.len() > 0
        invariant
            all_games.len() == all_replies.len(),
            forall|i: int| 0 <= i < all_replies.len() ==> reply_fits(#[trigger] all_replies[i]),
            cards@.len() + waiting@.len() == all_games.len(),
            answers@.len() == waiting@.len(),
            waiting@ == all_games.reverse().take(waiting@.len() as int),
            answers@ == all_replies.reverse().take(waiting@.len() as int),
            forall|i: int|
                0 <= i < cards@.len() ==> is_card(
                    #[trigger] cards@[i],
                    i,
                    all_games[i],
                    all_replies[i],
                ),
        decreases waiting@.len(),
    {
        let index = cards.len();
        assert(waiting@.last() == all_games[index as int]);
        assert(answers@.last() == all_replies[index as int]);
        if let Some(game) = waiting.pop() {
            if let Some(reply) = answers.pop() {
                cards.push(card_for(index, game, reply));
            }
        }
    }
    cards
}

proof fn lemma_different(lines: Seq<Seq<char>>)
    ensures
        different(lines).no_duplicates(),
        forall|i: int| 0 <= i < different(lines).len() ==> (#[trigger] different(lines)[i]).len() > 0,
    decreases lines.len(),
{
    if lines.len() > 0 {
        lemma_different(lines.drop_last());
        let before = different(lines.drop_last());
        let line = squeezed(lines.last());
        if line.len() > 0 && !before.contains(line) {
            let all = before.push(line);
            assert forall|i: int, j: int| 0 <= i < all.len() && 0 <= j < all.len() && i != j implies all[i]
                != all[j] by {
                if i < before.len() && j < before.len() {
                    assert(before[i] != before[j]);
                } else if i < before.len() {
                    assert(before.contains(before[i]));
                } else {
                    assert(before.contains(before[j]));
                }
            }
        }
    }
}

/// There is always a play to show, no play is shown twice, none is empty, and there are
/// no more than asked for, or one.
pub proof fn law_plays_are_different(card: GameCard, max: nat)
    ensures
        1 <= card.plays(max).len() <= (if max == 0 {
            1
        } else {
            max
        }),
        card.plays(max).no_duplicates(),
        forall|i: int| 0 <= i < card.plays(max).len() ==> (#[trigger] card.plays(max)[i]).len() > 0,
{
    let all = different(event_texts(card.latest_events@));
    lemma_different(event_texts(card.latest_events@));
    reveal_strlit("API 오류: ");
    reveal_strlit("문자중계 없음");
    reveal_strlit("문자중계 대기 중");
    let plays = plays_of(event_texts(card.latest_events@), max);
    assert(plays.no_duplicates()) by {
        assert forall|i: int, j: int| 0 <= i < plays.len() && 0 <= j < plays.len() && i != j implies plays[i]
            != plays[j] by {
            assert(all[i] != all[j]);
        }
    }
    assert forall|i: int| 0 <= i < plays.len() implies (#[trigger] plays[i]).len() > 0 by {
        assert(all[i].len() > 0);
    }
}

/// Both lines of the relay's tables have the same innings, and tell of each what the
/// tables say of its number.
pub proof fn law_lines_side_by_side(card: GameCard)
    requires
        card.relay is Some,
        card.relay->0.inning_score is Some,
    ensures
        card.lines().0.len() == card.lines().1.len(),
        ({
            let score = card.relay->0.inning_score->0;
            forall|n: nat|
                #![trigger decimal(n)]
                1 <= n <= card.lines().0.len() ==> {
                    &&& card.lines().0[n - 1] == runs_in(score.away@, n)
                    &&& card.lines().1[n - 1] == runs_in(score.home@, n)
                }
        }),
{
}

/// Each team has its own runs: those that the state tells of it, where it tells an integer,
/// or else those of the schedule for the same team, or else none.
pub proof fn law_runs_are_the_teams_own(card: GameCard)
    ensures
        card.state is Some && card.state->0.away_score is Some && parsed_integer(
            card.state->0.away_score->0@,
        ) is Some ==> card.away_runs() == parsed_integer(card.state->0.away_score->0@)->0,
        card.state is Some && card.state->0.home_score is Some && parsed_integer(
            card.state->0.home_score->0@,
        ) is Some ==> card.home_runs() == parsed_integer(card.state->0.home_score->0@)->0,
        card.state is None || card.state->0.away_score is None || parsed_integer(
            card.state->0.away_score->0@,
        ) is None ==> card.away_runs() == (match card.game.away_team_score {
            Some(runs) => runs as int,
            None => 0,
        }),
        card.state is None || card.state->0.home_score is None || parsed_integer(
            card.state->0.home_score->0@,
        ) is None ==> card.home_runs() == (match card.game.home_team_score {
            Some(runs) => runs as int,
            None => 0,
        }),
{
}

/// A runner stands on a base exactly where the state names one for that base, and neither
/// nothing nor zero.
pub proof fn law_runners_stand_on_their_bases(card: GameCard)
    ensures
        card.state is None ==> !card.runners().first && !card.runners().second
            && !card.runners().third,
        card.state matches Some(state) ==> {
            &&& card.runners().first <==> (state.base1 is Some && state.base1->0@.len() > 0
                && state.base1->0@ != seq!['0'])
            &&& card.runners().second <==> (state.base2 is Some && state.base2->0@.len() > 0
                && state.base2->0@ != seq!['0'])
            &&& card.runners().third <==> (state.base3 is Some && state.base3->0@.len() > 0
                && state.base3->0@ != seq!['0'])
        },
{
    reveal_strlit("0");
    assert("0"@ =~= seq!['0']);
}

/// A count is what its field writes in decimal, and zero where the field is missing or
/// holds anything but a sign and digits.
pub proof fn law_counts_are_read(field: Option<String>, count: nat)
    requires
        count <= usize::MAX,
    ensures
        field is None ==> counted_as(field) == 0,
        field is Some && (field->0@ == decimal(count) || field->0@ == seq!['+'] + decimal(count))
            ==> counted_as(field) == count,
        field is Some && field->0@.len() == 0 ==> counted_as(field) == 0,
        field is Some && (exists|i: int|
            0 < i < field->0@.len() && !('0' <= #[trigger] field->0@[i] <= '9')) ==> counted_as(
            field,
        ) == 0,
{
    if field is Some {
        law_numbers_are_digits(field->0@, count, usize::MAX as nat);
    }
}

/// The away team bats in the top of an inning and the home team in its bottom; nobody is
/// said to bat where the relay says neither.
pub proof fn law_halves_belong_to_sides(card: GameCard)
    ensures
        card.relay is None ==> card.attack() is None,
        card.relay matches Some(relay) ==> {
            &&& relay.home_or_away is Some && relay.home_or_away->0@ == seq!['0'] ==> card.attack()
                == Some(Side::Away) && half_of(card.relay->0.home_or_away) == seq!['초']
            &&& relay.home_or_away is Some && relay.home_or_away->0@ == seq!['1'] ==> card.attack()
                == Some(Side::Home) && half_of(card.relay->0.home_or_away) == seq!['말']
            &&& relay.home_or_away is None || (relay.home_or_away->0@ != seq!['0']
                && relay.home_or_away->0@ != seq!['1']) ==> card.attack() is None && half_of(
                relay.home_or_away,
            ).len() == 0
        },
{
    reveal_strlit("0");
    reveal_strlit("1");
    reveal_strlit("초");
    reveal_strlit("말");
    reveal_strlit("");
    assert("0"@ =~= seq!['0']);
    assert("1"@ =~= seq!['1']);
    assert("초"@ =~= seq!['초']);
    assert("말"@ =~= seq!['말']);
    assert(seq!['0'][0] != seq!['1'][0]);
}

/// With a relay, the state of a game is its inning and half, or else its label, and the
/// outs that the state tells, or else none.
pub proof fn law_relayed_status(card: GameCard)
    requires
        card.relay is Some,
    ensures
        ({
            let relay = card.relay->0;
            let outs = if card.state is Some && card.state->0.out is Some {
                card.state->0.out->0@
            } else {
                seq!['0']
            };
            let half = if relay.home_or_away is Some && relay.home_or_away->0@ == seq!['0'] {
                seq!['초']
            } else if relay.home_or_away is Some && relay.home_or_away->0@ == seq!['1'] {
                seq!['말']
            } else {
                Seq::empty()
            };
            &&& relay.inn is Some ==> card.status_words() == decimal(relay.inn->0 as nat)
                + seq!['회'] + half + seq![' '] + outs + seq!['사']
            &&& relay.inn is None ==> card.status_words() == card.game.label() + seq![' '] + outs
                + seq!['사']
        }),
{
    reveal_strlit("0");
    reveal_strlit("회");
    reveal_strlit(" ");
    reveal_strlit("사");
    assert("0"@ =~= seq!['0']);
    assert("회"@ =~= seq!['회']);
    assert(" "@ =~= seq![' ']);
    assert("사"@ =~= seq!['사']);
    law_halves_belong_to_sides(card);
    assert(half_of(card.relay->0.home_or_away) =~= (if card.relay->0.home_or_away is Some
        && card.relay->0.home_or_away->0@ == seq!['0'] {
        seq!['초']
    } else if card.relay->0.home_or_away is Some && card.relay->0.home_or_away->0@ == seq!['1'] {
        seq!['말']
    } else {
        Seq::empty()
    }));
}

/// Without a relay, the state of a game is how it ended, or else its label, where it is
/// over; and its label and start where it is not.
pub proof fn law_scheduled_status(card: GameCard)
    requires
        card.relay is None,
    ensures
        card.game.finished() && card.game.current_inning is Some ==> card.status_words()
            == card.game.current_inning->0@,
        card.game.finished() && card.game.current_inning is None ==> card.status_words()
            == card.game.label(),
        !card.game.finished() ==> card.status_words() == card.game.label() + seq![' ']
            + card.game.start_time(),
{
    reveal_strlit(" ");
    assert(" "@ =~= seq![' ']);
}

/// The players of a side, in the order in which they are searched: the batters and the
/// pitchers of its lineup, then those of its entry.
pub open spec fn side_players(relay: TextRelayData, side: Side) -> Seq<Player> {
    let (lineup, entry) = match side {
        Side::Away => (relay.away_lineup, relay.away_entry),
        Side::Home => (relay.home_lineup, relay.home_entry),
    };
    (if lineup is Some {
        lineup->0.batter@ + lineup->0.pitcher@
    } else {
        Seq::empty()
    }) + (if entry is Some {
        entry->0.batter@ + entry->0.pitcher@
    } else {
        Seq::empty()
    })
}

/// The batter is the first player of the team at bat with the code that the state gives for
/// the batter, and nobody where there is none.
pub proof fn law_batter_is_of_the_side_at_bat(card: GameCard, styled: bool, side: Side, k: int)
    requires
        card.relay is Some,
        card.attack() == Some(side),
        card.state is Some,
        card.state->0.batter is Some,
    ensures
        ({
            let players = side_players(card.relay->0, side);
            let code = card.state->0.batter->0@;
            &&& 0 <= k < players.len() && players[k].pcode@ == code && (forall|j: int|
                0 <= j < k ==> (#[trigger] players[j]).pcode@ != code) ==> card.batter_text(styled)
                == player_text(styled, players[k])
            &&& (forall|j: int| 0 <= j < players.len() ==> (#[trigger] players[j]).pcode@ != code)
                ==> card.batter_text(styled) == seq!['-']
        }),
{
    let players = side_players(card.relay->0, side);
    let code = card.state->0.batter->0@;
    reveal_strlit("-");
    assert("-"@ =~= seq!['-']);
    assert(card.squad(true) =~= players);
    if 0 <= k < players.len() && players[k].pcode@ == code && (forall|j: int|
        0 <= j < k ==> (#[trigger] players[j]).pcode@ != code) {
        law_first_player_is_found(code, players, k);
    }
    if forall|j: int| 0 <= j < players.len() ==> (#[trigger] players[j]).pcode@ != code {
        law_no_player_is_found(code, players);
    }
}

/// The pitcher is the first player of the other team with the code that the state gives for
/// the pitcher.
pub proof fn law_pitcher_is_of_the_other_side(card: GameCard, styled: bool, side: Side, k: int)
    requires
        card.relay is Some,
        card.attack() is Some,
        card.attack() != Some(side),
        card.state is Some,
        card.state->0.pitcher is Some,
    ensures
        ({
            let players = side_players(card.relay->0, side);
            let code = card.state->0.pitcher->0@;
            &&& 0 <= k < players.len() && players[k].pcode@ == code && (forall|j: int|
                0 <= j < k ==> (#[trigger] players[j]).pcode@ != code) ==> card.pitcher_text(
                styled,
            ) == player_text(styled, players[k])
            &&& (forall|j: int| 0 <= j < players.len() ==> (#[trigger] players[j]).pcode@ != code)
                ==> card.pitcher_text(styled) == told_pitcher(styled, card.game, card.attack())
        }),
{
    let players = side_players(card.relay->0, side);
    let code = card.state->0.pitcher->0@;
    assert(card.squad(false) =~= players);
    if 0 <= k < players.len() && players[k].pcode@ == code && (forall|j: int|
        0 <= j < k ==> (#[trigger] players[j]).pcode@ != code) {
        law_first_player_is_found(code, players, k);
    }
    if forall|j: int| 0 <= j < players.len() ==> (#[trigger] players[j]).pcode@ != code {
        law_no_player_is_found(code, players);
    }
}

/// Without a named batter there is none; without a named pitcher the schedule tells one, and
/// without a relay both starters.
pub proof fn law_unnamed_players(card: GameCard, styled: bool)
    ensures
        card.relay is None || card.attack() is None || card.state is None || card.state->0.batter
            is None ==> card.batter_text(styled) == seq!['-'],
        card.relay is None ==> card.pitcher_text(styled) == starters_text(styled, card.game),
        card.relay is Some && (card.attack() is None || card.state is None || card.state->0.pitcher
            is None) ==> card.pitcher_text(styled) == told_pitcher(
            styled,
            card.game,
            card.attack(),
        ),
{
    reveal_strlit("-");
    assert("-"@ =~= seq!['-']);
    assert(first_with(Seq::empty(), Seq::empty()) is None);
}

/// The lines of the relay's tables are those of their teams: of each inning what the table
/// of the team says of its number, or a dash. They go as far as the highest inning that a
/// name of either table stands for, or to the first.
pub proof fn law_lines_come_from_the_tables(card: GameCard)
    requires
        card.relay is Some,
        card.relay->0.inning_score is Some,
    ensures
        ({
            let away = card.relay->0.inning_score->0.away@;
            let home = card.relay->0.inning_score->0.home@;
            let (first, second) = card.lines();
            &&& first.len() == second.len()
            &&& forall|n: nat|
                #![trigger decimal(n)]
                1 <= n <= first.len() ==> {
                    &&& away.dom().contains(decimal(n)) ==> first[n - 1] == away[decimal(n)]
                    &&& !away.dom().contains(decimal(n)) ==> first[n - 1] == seq!['-']
                    &&& home.dom().contains(decimal(n)) ==> second[n - 1] == home[decimal(n)]
                    &&& !home.dom().contains(decimal(n)) ==> second[n - 1] == seq!['-']
                }
            &&& forall|name: Seq<char>|
                #![trigger parsed_count(name, usize::MAX as nat)]
                (away.dom().contains(name) || home.dom().contains(name)) && parsed_count(
                    name,
                    usize::MAX as nat,
                ) is Some ==> parsed_count(name, usize::MAX as nat)->0 <= first.len()
            &&& first.len() == 1 || exists|name: Seq<char>|
                (away.dom().contains(name) || home.dom().contains(name)) && #[trigger] parsed_count(
                    name,
                    usize::MAX as nat,
                ) == Some(first.len())
        }),
{
    reveal_strlit("-");
    assert("-"@ =~= seq!['-']);
    let away = card.relay->0.inning_score->0.away@;
    let home = card.relay->0.inning_score->0.home@;
    let names = home.dom() + away.dom();
    law_highest_inning(names);
    let (first, second) = card.lines();
    assert forall|name: Seq<char>|
        #![trigger parsed_count(name, usize::MAX as nat)]
        (away.dom().contains(name) || home.dom().contains(name)) && parsed_count(
            name,
            usize::MAX as nat,
        ) is Some implies parsed_count(name, usize::MAX as nat)->0 <= first.len() by {
        assert(names.contains(name));
    }
    if first.len() != 1 {
        let name = choose|name: Seq<char>|
            names.contains(name) && #[trigger] parsed_count(name, usize::MAX as nat) == Some(
                first.len(),
            );
        assert(away.dom().contains(name) || home.dom().contains(name));
    }
}

/// Without such tables the lines are the schedule's scores of each team that are not empty,
/// in their order: one more score is added at the end, or nothing where it is empty.
pub proof fn law_lines_come_from_the_schedule(card: GameCard, scores: Seq<Seq<char>>, next: Seq<char>)
    ensures
        card.relay is None || card.relay->0.inning_score is None ==> card.lines().0
            == given_scores(texts(card.game.away_team_score_by_inning@)) && card.lines().1
            == given_scores(texts(card.game.home_team_score_by_inning@)),
        given_scores(Seq::empty()) == Seq::<Seq<char>>::empty(),
        given_scores(scores.push(next)) == (if next.len() > 0 {
            given_scores(scores).push(next)
        } else {
            given_scores(scores)
        }),
{
    reveal(Seq::filter);
    assert(scores.push(next).drop_last() =~= scores);
    assert(given_scores(Seq::empty()) =~= Seq::<Seq<char>>::empty());
}

/// Where the different texts of the start of a list end, and which text comes next.
proof fn lemma_different_source(lines: Seq<Seq<char>>, q: int) -> (j: int)
    requires
        0 <= q < different(lines).len(),
    ensures
        0 <= j < lines.len(),
        different(lines)[q] == squeezed(lines[j]),
        squeezed(lines[j]).len() > 0,
        different(lines.take(j)).len() == q,
        !different(lines.take(j)).contains(squeezed(lines[j])),
    decreases lines.len(),
{
    let before = lines.drop_last();
    if q < different(before).len() {
        let j = lemma_different_source(before, q);
        assert(before.take(j) =~= lines.take(j));
        j
    } else {
        assert(lines.take(lines.len() - 1) =~= before);
        lines.len() - 1
    }
}

proof fn lemma_different_contains(lines: Seq<Seq<char>>, i: int)
    requires
        0 <= i < lines.len(),
        squeezed(lines[i]).len() > 0,
    ensures
        different(lines).contains(squeezed(lines[i])),
    decreases lines.len(),
{
    let before = lines.drop_last();
    let line = squeezed(lines.last());
    if i < lines.len() - 1 {
        lemma_different_contains(before, i);
        let k = choose|k: int|
            0 <= k < different(before).len() && different(before)[k] == squeezed(lines[i]);
        assert(different(lines)[k] == squeezed(lines[i]));
    } else if !different(before).contains(line) {
        assert(different(lines)[different(before).len() as int] == line);
    }
}

/// The plays are the texts of the events that have words, each put on one line, in the
/// order of the events: every play is the text of some event, no event before that one has
/// the same text, and the plays before it come from events before that one.
pub proof fn law_plays_are_the_events(card: GameCard, max: nat, q: int) -> (j: int)
    requires
        card.error is None,
        exists|i: int|
            0 <= i < card.latest_events@.len() && squeezed(
                (#[trigger] card.latest_events@[i]).text@,
            ).len() > 0,
        0 <= q < card.plays(max).len(),
    ensures
        0 <= j < card.latest_events@.len(),
        card.plays(max)[q] == squeezed(card.latest_events@[j].text@),
        card.plays(max)[q].len() > 0,
        forall|i: int|
            0 <= i < j ==> squeezed((#[trigger] card.latest_events@[i]).text@) != card.plays(
                max,
            )[q],
        forall|p: int|
            0 <= p < q ==> exists|i: int|
                0 <= i < j && squeezed((#[trigger] card.latest_events@[i]).text@)
                    == #[trigger] card.plays(max)[p],
{
    let lines = event_texts(card.latest_events@);
    lemma_plays_are_different_texts(card, max);
    let j = lemma_different_source(lines, q);
    assert(lines[j] == card.latest_events@[j].text@);
    assert forall|i: int| 0 <= i < j implies squeezed((#[trigger] card.latest_events@[i]).text@)
        != card.plays(max)[q] by {
        if squeezed(card.latest_events@[i].text@) == card.plays(max)[q] {
            assert(lines.take(j)[i] == lines[i]);
            lemma_different_contains(lines.take(j), i);
        }
    }
    lemma_different_grows(lines, j);
    assert forall|p: int| 0 <= p < q implies exists|i: int|
        0 <= i < j && squeezed((#[trigger] card.latest_events@[i]).text@)
            == #[trigger] card.plays(max)[p] by {
        assert(different(lines).take(q)[p] == different(lines)[p]);
        let i = lemma_different_source(lines.take(j), p);
        assert(squeezed(card.latest_events@[i].text@) == card.plays(max)[p]);
    }
    j
}

/// Where some event has words, the plays are the start of its different texts.
proof fn lemma_plays_are_different_texts(card: GameCard, max: nat)
    requires
        card.error is None,
        exists|i: int|
            0 <= i < card.latest_events@.len() && squeezed(
                (#[trigger] card.latest_events@[i]).text@,
            ).len() > 0,
    ensures
        ({
            let all = different(event_texts(card.latest_events@));
            let limit = if max == 0 {
                1
            } else {
                max
            };
            &&& all.len() > 0
            &&& card.plays(max) == all.take(
                if all.len() <= limit {
                    all.len() as int
                } else {
                    limit as int
                },
            )
        }),
{
    let lines = event_texts(card.latest_events@);
    let i = choose|i: int|
        0 <= i < card.latest_events@.len() && squeezed(
            (#[trigger] card.latest_events@[i]).text@,
        ).len() > 0;
    assert(lines[i] == card.latest_events@[i].text@);
    lemma_different_contains(lines, i);
    let all = different(lines);
    assert(all.take(all.len() as int) =~= all);
}

/// No event is left out while there is room: every event with words is among the plays, or
/// there are as many plays as asked for, and each of them is the text of a newer event.
pub proof fn law_events_are_shown(card: GameCard, max: nat, i: int)
    requires
        card.error is None,
        0 <= i < card.latest_events@.len(),
        squeezed(card.latest_events@[i].text@).len() > 0,
    ensures
        card.plays(max).contains(squeezed(card.latest_events@[i].text@)) || (card.plays(max).len()
            == (if max == 0 {
            1
        } else {
            max
        }) && forall|q: int|
            0 <= q < card.plays(max).len() ==> exists|j: int|
                0 <= j < i && squeezed((#[trigger] card.latest_events@[j]).text@)
                    == #[trigger] card.plays(max)[q]),
{
    let lines = event_texts(card.latest_events@);
    let text = squeezed(card.latest_events@[i].text@);
    let all = different(lines);
    lemma_plays_are_different_texts(card, max);
    assert(lines[i] == card.latest_events@[i].text@);
    lemma_different_contains(lines, i);
    let at = choose|at: int| 0 <= at < all.len() && all[at] == text;
    if at < card.plays(max).len() {
        assert(card.plays(max)[at] == text);
    } else {
        let place = lemma_different_source(lines, at);
        if place > i {
            assert(lines.take(place)[i] == lines[i]);
            lemma_different_contains(lines.take(place), i);
        }
        lemma_different_grows(lines, place);
        assert forall|q: int| 0 <= q < card.plays(max).len() implies exists|j: int|
            0 <= j < i && squeezed((#[trigger] card.latest_events@[j]).text@)
                == #[trigger] card.plays(max)[q] by {
            assert(all.take(at)[q] == all[q]);
            let j = lemma_different_source(lines.take(place), q);
            assert(squeezed(card.latest_events@[j].text@) == card.plays(max)[q]);
        }
    }
}

/// A failed poll is told, and without words in any event it is told that there are none, or
/// that they are waited for.
pub proof fn law_plays_without_events(card: GameCard, max: nat)
    ensures
        card.error is Some ==> card.plays(max) == seq!["API 오류: "@ + squeezed(card.error->0@)],
        card.error is None && (forall|i: int|
            0 <= i < card.latest_events@.len() ==> squeezed(
                (#[trigger] card.latest_events@[i]).text@,
            ).len() == 0) ==> card.plays(max) == seq![
            if card.game.finished() {
                "문자중계 없음"@
            } else {
                "문자중계 대기 중"@
            },
        ],
{
    let lines = event_texts(card.latest_events@);
    if forall|i: int|
        0 <= i < card.latest_events@.len() ==> squeezed(
            (#[trigger] card.latest_events@[i]).text@,
        ).len() == 0 {
        if different(lines).len() > 0 {
            let j = lemma_different_source(lines, 0);
            assert(lines[j] == card.latest_events@[j].text@);
        }
    }
}

/// The first state of events is that of the first event that has one.
pub proof fn law_first_state(events: Seq<RelayEvent>, i: int)
    ensures
        0 <= i < events.len() && events[i].state is Some && (forall|j: int|
            0 <= j < i ==> (#[trigger] events[j]).state is None) ==> first_state(events)
            == events[i].state,
        (forall|j: int| 0 <= j < events.len() ==> (#[trigger] events[j]).state is None)
            ==> first_state(events) is None,
    decreases events.len(),
{
    if events.len() > 0 && events[0].state is None {
        let rest = events.skip(1);
        law_first_state(rest, i - 1);
        assert(forall|j: int| 0 <= j < rest.len() ==> #[trigger] rest[j] == events[j + 1]);
        if 0 <= i < events.len() && events[i].state is Some {
            assert(rest[i - 1] == events[i]);
        }
        if forall|j: int| 0 <= j < events.len() ==> (#[trigger] events[j]).state is None {
            assert forall|j: int| 0 <= j < rest.len() implies (#[trigger] rest[j]).state
                is None by {
                assert(events[j + 1].state is None);
            }
        }
        if forall|j: int| 0 <= j < i ==> (#[trigger] events[j]).state is None {
            assert forall|j: int| 0 <= j < i - 1 && j < rest.len() implies (
            #[trigger] rest[j]).state is None by {
                assert(events[j + 1].state is None);
            }
        }
    }
}

/// A polled card is of the game and the relay that came with the poll, and shows no error.
/// Its events are newest first, its state is that of the newest event that has one, or else
/// the current one of the relay.
pub proof fn law_polled_card(
    card: GameCard,
    index: int,
    game: Game,
    relay: Option<TextRelayData>,
    i: int,
)
    requires
        is_polled(card, index, game, relay),
        0 <= i < card.latest_events@.len(),
    ensures
        card.index == index,
        card.game == game,
        card.relay == relay,
        card.error is None,
        relay is Some,
        forall|j: int|
            0 <= j < i ==> (#[trigger] card.latest_events@[j]).seqno
                > card.latest_events@[i].seqno,
        card.latest_events@[i].state is Some && (forall|j: int|
            0 <= j < i ==> (#[trigger] card.latest_events@[j]).state is None) ==> card.state
            == card.latest_events@[i].state,
        (forall|j: int|
            0 <= j < card.latest_events@.len() ==> (#[trigger] card.latest_events@[j]).state
                is None) ==> card.state == current_state(relay->0),
{
    let events = card.latest_events@;
    let turned = told(events.reverse());
    law_first_state(events, i);
    assert forall|j: int| 0 <= j < i implies (#[trigger] events[j]).seqno > events[i].seqno by {
        let a = events.len() - 1 - i;
        let b = events.len() - 1 - j;
        law_numbers_rise(turned, relayed(relay->0.text_relays@), a, b);
        assert(turned[a] == events[i]@);
        assert(turned[b] == events[j]@);
    }
}

/// A polled card without events has the current state of its relay, or none.
pub proof fn law_polled_card_without_events(
    card: GameCard,
    index: int,
    game: Game,
    relay: Option<TextRelayData>,
)
    requires
        is_polled(card, index, game, relay),
        card.latest_events@.len() == 0,
    ensures
        card.index == index,
        card.game == game,
        card.relay == relay,
        card.error is None,
        card.state == (if relay is Some {
            current_state(relay->0)
        } else {
            None
        }),
{
}

/// A polled card has an event of the number of every play of its relay.
pub proof fn law_polled_card_tells_plays(
    card: GameCard,
    index: int,
    game: Game,
    relay: TextRelayData,
    g: int,
    i: int,
)
    requires
        is_polled(card, index, game, Some(relay)),
        0 <= g < relay.text_relays@.len(),
        is_play(relay.text_relays@[g], i),
    ensures
        exists|j: int|
            0 <= j < card.latest_events@.len() && is_numbered(
                relay.text_relays@[g],
                i,
                (#[trigger] card.latest_events@[j]).seqno as int,
            ),
{
    let events = card.latest_events@;
    let turned = told(events.reverse());
    law_every_play_is_told(turned, relay.text_relays@, g, i);
    let k = choose|k: int|
        0 <= k < turned.len() && is_numbered(
            relay.text_relays@[g],
            i,
            (#[trigger] turned[k]).number,
        );
    let j = events.len() - 1 - k;
    assert(turned[k] == events[j]@);
    assert(is_numbered(relay.text_relays@[g], i, events[j].seqno as int));
}

/// A game whose poll failed keeps its card: the schedule's entry with the error.
pub proof fn law_failed_poll_keeps_the_game(
    card: GameCard,
    index: int,
    game: Game,
    reply: Result<GamePollingResult, String>,
)
    requires
        is_card(card, index, game, reply),
    ensures
        card.index == index,
        reply matches Err(error) ==> card.game == game && card.error == Some(error) && card.relay
            is None && card.state is None && card.latest_events@.len() == 0,
        reply matches Ok(polling) ==> card.game == polling.game && card.relay
            == polling.text_relay_data && card.error is None,
{
}

/// Every event of a polled card is a play of its relay, with its text, its state and its
/// number, and the first one relayed with that number.
pub proof fn law_polled_events_are_plays(
    card: GameCard,
    index: int,
    game: Game,
    relay: TextRelayData,
    j: int,
) -> (option: (int, int))
    requires
        is_polled(card, index, game, Some(relay)),
        0 <= j < card.latest_events@.len(),
    ensures
        0 <= option.0 < relay.text_relays@.len(),
        is_play(relay.text_relays@[option.0], option.1),
        card.latest_events@[j].text@ == trimmed(
            relay.text_relays@[option.0].text_options@[option.1].text->0@,
        ),
        card.latest_events@[j].state
            == relay.text_relays@[option.0].text_options@[option.1].current_game_state,
        is_numbered(
            relay.text_relays@[option.0],
            option.1,
            card.latest_events@[j].seqno as int,
        ),
        forall|g: int, i: int|
            0 <= g < relay.text_relays@.len() && (g < option.0 || (g == option.0 && i < option.1))
                && #[trigger] is_play(relay.text_relays@[g], i) ==> !is_numbered(
                relay.text_relays@[g],
                i,
                card.latest_events@[j].seqno as int,
            ),
{
    let events = card.latest_events@;
    let turned = told(events.reverse());
    let k = events.len() - 1 - j;
    assert(turned[k] == events[j]@);
    law_events_are_first_plays(turned, relay.text_relays@, k)
}

} // verus!
