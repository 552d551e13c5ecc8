//! The sports service: what it is asked, what it answers, and what its answers on a
//! game mean.
use vstd::prelude::*;

use crate::number::write_signed;
use crate::scores::ScoreTable;
use crate::text::{chars_of, same_text, text_between};
#[allow(unused_imports)]
use crate::number::signed_decimal;

verus! {

/// Where the service answers.
pub const API_BASE: &'static str = "https://api-gw.sports.naver.com";

/// The pages that requests come from.
pub const MOBILE_BASE: &'static str = "https://m.sports.naver.com";

/// What requests call themselves.
pub const USER_AGENT: &'static str = "Mozilla/5.0 (Macintosh; Intel Mac OS X 10_15_7) AppleWebKit/537.36 (KHTML, like Gecko) Chrome/126.0 Safari/537.36 kbo-cli/0.1";

/// The groups of fields that are asked for of a schedule.
pub const SCHEDULE_FIELDS: &'static str = "basic,schedule,baseball,manualRelayUrl";

/// The seconds after which a request is given up.
pub const REQUEST_TIMEOUT: u64 = 12;

/// A request to the service.
#[derive(Clone, Debug)]
pub struct ApiRequest {
    pub url: String,
    pub query: Vec<(String, String)>,
    pub referer: String,
}

/// The texts of the pairs of a query.
pub open spec fn query_texts(query: Seq<(String, String)>) -> Seq<(Seq<char>, Seq<char>)> {
    query.map_values(|pair: (String, String)| (pair.0@, pair.1@))
}

/// The query for the games of `date` in a category.
pub open spec fn schedule_query(date: Seq<char>, category: Seq<char>) -> Seq<
    (Seq<char>, Seq<char>),
> {
    seq![
        ("fields"@, SCHEDULE_FIELDS@),
        ("upperCategoryId"@, "kbaseball"@),
        ("categoryId"@, category),
        ("fromDate"@, date),
        ("toDate"@, date),
        ("size"@, "500"@),
    ]
}

fn pair(name: &str, value: &str) -> (both: (String, String))
    ensures
        both.0@ == name@,
        both.1@ == value@,
{
    (name.to_owned(), value.to_owned())
}

/// The page that shows the games of `date` in a category.
pub open spec fn schedule_page(date: Seq<char>, category: Seq<char>) -> Seq<char> {
    MOBILE_BASE@ + "/kbaseball/schedule/index?date="@ + date + "&category="@ + category
}

/// The page that shows a game.
pub open spec fn game_page(game_id: Seq<char>) -> Seq<char> {
    MOBILE_BASE@ + "/game/"@ + game_id + "/relay"@
}

/// Where the service tells the current course of a game.
pub open spec fn polling_address(game_id: Seq<char>) -> Seq<char> {
    API_BASE@ + "/schedule/games/"@ + game_id + "/game-polling"@
}

/// The request for the games of `date` in a category.
pub fn schedule_request(date: &str, category_id: &str) -> (request: ApiRequest)
    ensures
        request.url@ == API_BASE@ + "/schedule/games"@,
        query_texts(request.query@) == schedule_query(date@, category_id@),
        request.referer@ == MOBILE_BASE@ + "/kbaseball/schedule/index?date="@ + date@
            + "&category="@ + category_id@,
        request.referer@ == schedule_page(date@, category_id@),
{
    let query: Vec<(String, String)> = vec![
        pair("fields", SCHEDULE_FIELDS),
        pair("upperCategoryId", "kbaseball"),
        pair("categoryId", category_id),
        pair("fromDate", date),
        pair("toDate", date),
        pair("size", "500"),
    ];
    assert(query_texts(query@) =~= schedule_query(date@, category_id@));
    ApiRequest {
        url: API_BASE.to_owned().concat("/schedule/games"),
        query,
        referer: MOBILE_BASE.to_owned().concat("/kbaseball/schedule/index?date=").concat(
            date,
        ).concat("&category=").concat(category_id),
    }
}

/// The request for the current course of a game.
pub fn polling_request(game_id: &str) -> (request: ApiRequest)
    ensures
        request.url@ == API_BASE@ + "/schedule/games/"@ + game_id@ + "/game-polling"@,
        request.query@.len() == 0,
        request.referer@ == MOBILE_BASE@ + "/game/"@ + game_id@ + "/relay"@,
        request.url@ == polling_address(game_id@),
        request.referer@ == game_page(game_id@),
{
    ApiRequest {
        url: API_BASE.to_owned().concat("/schedule/games/").concat(game_id).concat(
            "/game-polling",
        ),
        query: Vec::new(),
        referer: MOBILE_BASE.to_owned().concat("/game/").concat(game_id).concat("/relay"),
    }
}

/// Why a request brought nothing.
#[derive(Clone, Copy, Debug, PartialEq, Eq, Structural)]
pub enum ApiFailure {
    /// The request could not be made.
    Request,
    /// The answer has an error status.
    Status,
    /// The answer cannot be read.
    Body,
    /// The answer says that it is none, with a code.
    Refused(i32),
}

/// What is told of a failed request.
pub open spec fn failure_text(failure: ApiFailure, url: Seq<char>) -> Seq<char> {
    match failure {
        ApiFailure::Request => "네이버 스포츠 API 요청 실패: "@ + url,
        ApiFailure::Status => "네이버 스포츠 API HTTP 오류: "@ + url,
        ApiFailure::Body => "네이버 스포츠 API 응답 파싱 실패: "@ + url,
        ApiFailure::Refused(code) => "네이버 스포츠 API 오류(code="@ + signed_decimal(code as int)
            + "): "@ + url,
    }
}

/// Words a failed request.
pub fn failure_message(failure: ApiFailure, url: &str) -> (message: String)
    ensures
        message@ == failure_text(failure, url@),
{
    match failure {
        ApiFailure::Request => "네이버 스포츠 API 요청 실패: ".to_owned().concat(url),
        ApiFailure::Status => "네이버 스포츠 API HTTP 오류: ".to_owned().concat(url),
        ApiFailure::Body => "네이버 스포츠 API 응답 파싱 실패: ".to_owned().concat(url),
        ApiFailure::Refused(code) => "네이버 스포츠 API 오류(code=".to_owned().concat(
            &write_signed(code),
        ).concat("): ").concat(url),
    }
}

/// The envelope of every answer.
#[derive(Clone, Debug)]
pub struct ApiResponse<T> {
    pub code: i32,
    pub success: bool,
    pub result: T,
}

impl<T> ApiResponse<T> {
    /// What the answer holds, or its refusal where it is none.
    pub fn into_result(self) -> (result: Result<T, ApiFailure>)
        ensures
            result == (if self.success {
                Ok(self.result)
            } else {
                Err(ApiFailure::Refused(self.code))
            }),
    {
        if self.success {
            Ok(self.result)
        } else {
            Err(ApiFailure::Refused(self.code))
        }
    }
}

/// The games of a day.
#[derive(Debug)]
pub struct ScheduleResult {
    pub games: Vec<Game>,
    pub game_total_count: Option<u32>,
}

/// The current course of a game.
#[derive(Debug)]
pub struct GamePollingResult {
    pub game: Game,
    pub text_relay_data: Option<TextRelayData>,
}

/// A game.
#[derive(Clone, Debug)]
pub struct Game {
    pub game_id: String,
    pub game_date_time: Option<String>,
    pub home_team_name: String,
    pub away_team_name: String,
    pub home_team_score: Option<i32>,
    pub away_team_score: Option<i32>,
    pub status_code: Option<String>,
    pub status_info: Option<String>,
    pub cancel: Option<bool>,
    pub suspended: Option<bool>,
    pub home_starter_name: Option<String>,
    pub away_starter_name: Option<String>,
    pub home_current_pitcher_name: Option<String>,
    pub away_current_pitcher_name: Option<String>,
    pub current_inning: Option<String>,
    pub home_team_score_by_inning: Vec<String>,
    pub away_team_score_by_inning: Vec<String>,
}

/// Whether a field is there and holds `text`.
pub open spec fn holds(field: Option<String>, text: Seq<char>) -> bool {
    field is Some && field->0@ == text
}

/// Whether a field is there and holds `text`.
pub fn field_is(field: &Option<String>, text: &str) -> (found: bool)
    ensures
        found == holds(*field, text@),
{
    match field {
        Some(value) => same_text(value, text),
        None => false,
    }
}

/// A field, or `other` where it is not there.
pub open spec fn field_or(field: Option<String>, other: Seq<char>) -> Seq<char> {
    match field {
        Some(value) => value@,
        None => other,
    }
}

/// A field, or `other` where it is not there.
pub fn text_or<'a>(field: &'a Option<String>, other: &'a str) -> (text: &'a str)
    ensures
        text@ == field_or(*field, other@),
{
    match field {
        Some(value) => value.as_str(),
        None => other,
    }
}

/// What follows the first `mark` in `text`, where there is one.
pub open spec fn after_first(text: Seq<char>, mark: char) -> Option<Seq<char>>
    decreases text.len(),
{
    if text.len() == 0 {
        None
    } else if text[0] == mark {
        Some(text.skip(1))
    } else {
        after_first(text.skip(1), mark)
    }
}

/// The start of a text, of `count` characters at most.
pub open spec fn first_chars(text: Seq<char>, count: int) -> Seq<char> {
    if text.len() <= count {
        text
    } else {
        text.take(count)
    }
}

impl Game {
    /// Whether the game was called off.
    pub open spec fn cancelled(self) -> bool {
        self.cancel == Some(true)
    }

    /// Whether the game is on.
    pub open spec fn started(self) -> bool {
        holds(self.status_code, "STARTED"@)
    }

    /// Whether the game is over or will not be played.
    pub open spec fn finished(self) -> bool {
        ||| holds(self.status_code, "RESULT"@)
        ||| holds(self.status_code, "CANCEL"@)
        ||| self.cancelled()
    }

    /// The state of the game in a word.
    pub open spec fn label(self) -> Seq<char> {
        if self.cancelled() {
            "취소"@
        } else if self.suspended == Some(true) {
            "중단"@
        } else if holds(self.status_code, "BEFORE"@) {
            field_or(self.status_info, "경기전"@)
        } else if holds(self.status_code, "STARTED"@) {
            "LIVE"@
        } else if holds(self.status_code, "RESULT"@) {
            "종료"@
        } else if holds(self.status_code, "CANCEL"@) {
            "취소"@
        } else {
            field_or(self.status_info, "상태없음"@)
        }
    }

    /// The hour and minute of the start: the five characters behind the first `T` of
    /// the date and time.
    pub open spec fn start_time(self) -> Seq<char> {
        match self.game_date_time {
            Some(moment) => match after_first(moment@, 'T') {
                Some(time) => first_chars(time, 5),
                None => "--:--"@,
            },
            None => "--:--"@,
        }
    }

    /// Whether the game is on.
    pub fn is_started(&self) -> (started: bool)
        ensures
            started == self.started(),
    {
        field_is(&self.status_code, "STARTED")
    }

    /// Whether the game is over or will not be played.
    pub fn is_finished(&self) -> (finished: bool)
        ensures
            finished == self.finished(),
    {
        field_is(&self.status_code, "RESULT") || field_is(&self.status_code, "CANCEL")
            || self.cancel.unwrap_or(false)
    }

    /// The state of the game in a word.
    pub fn status_label(&self) -> (label: &str)
        ensures
            label@ == self.label(),
    {
        proof {
            reveal_strlit("BEFORE");
            reveal_strlit("STARTED");
            reveal_strlit("RESULT");
            reveal_strlit("CANCEL");
        }
        if self.cancel.unwrap_or(false) {
            "취소"
        } else if self.suspended.unwrap_or(false) {
            "중단"
        } else if field_is(&self.status_code, "BEFORE") {
            text_or(&self.status_info, "경기전")
        } else if field_is(&self.status_code, "STARTED") {
            "LIVE"
        } else if field_is(&self.status_code, "RESULT") {
            "종료"
        } else if field_is(&self.status_code, "CANCEL") {
            "취소"
        } else {
            text_or(&self.status_info, "상태없음")
        }
    }

    /// The hour and minute of the start.
    pub fn starts_at_hhmm(&self) -> (time: String)
        ensures
            time@ == self.start_time(),
    {
        let moment = match &self.game_date_time {
            Some(moment) => chars_of(moment),
            None => return "--:--".to_owned(),
        };
        let mut i: usize = 0;
        assert(moment@.skip(0) == moment@);
        while i < moment.len()
            invariant
                i <= moment@.len(),
                self.game_date_time is Some,
                moment@ == self.game_date_time->0@,
                after_first(moment@, 'T') == after_first(moment@.skip(i as int), 'T'),
            decreases moment@.len() - i,
        {
            assert(moment@.skip(i as int).skip(1) == moment@.skip(i + 1));
            if moment[i] == 'T' {
                let from = i + 1;
                let end: usize = if moment.len() - from <= 5 { moment.len() } else { from + 5 };
                assert(moment@.subrange(from as int, end as int) =~= first_chars(
                    moment@.skip(from as int),
                    5,
                ));
                return text_between(&moment, from, end);
            }
            i += 1;
        }
        "--:--".to_owned()
    }
}

/// The text relay of a game.
#[derive(Debug)]
pub struct TextRelayData {
    pub inn: Option<u32>,
    pub home_or_away: Option<String>,
    pub inning_score: Option<InningScore>,
    pub home_entry: Option<Lineup>,
    pub away_entry: Option<Lineup>,
    pub home_lineup: Option<Lineup>,
    pub away_lineup: Option<Lineup>,
    pub current_game_state: Option<GameState>,
    pub text_relays: Vec<TextRelayGroup>,
}

/// The runs of both teams, by inning.
#[derive(Clone, Debug)]
pub struct InningScore {
    pub home: ScoreTable,
    pub away: ScoreTable,
}

/// The players of a team.
#[derive(Clone, Debug)]
pub struct Lineup {
    pub batter: Vec<Player>,
    pub pitcher: Vec<Player>,
}

/// A player. The averages of the bat are written with three decimals, those of the
/// day's pitching with two.
#[derive(Clone, Debug)]
pub struct Player {
    pub name: String,
    pub pcode: String,
    pub season_hra: Option<String>,
    pub today_hra: Option<String>,
    pub season_era: Option<String>,
    pub today_era: Option<String>,
}

/// A group of relayed texts.
#[derive(Debug)]
pub struct TextRelayGroup {
    pub no: Option<u64>,
    pub text_options: Vec<TextOption>,
}

/// A relayed text, with the state of the game behind it.
#[derive(Debug)]
pub struct TextOption {
    pub seqno: Option<u64>,
    pub text: Option<String>,
    pub current_game_state: Option<GameState>,
}

/// The state of a game between two plays.
#[derive(Debug, PartialEq, Eq)]
pub struct GameState {
    pub home_score: Option<String>,
    pub away_score: Option<String>,
    pub pitcher: Option<String>,
    pub batter: Option<String>,
    pub strike: Option<String>,
    pub ball: Option<String>,
    pub out: Option<String>,
    pub base1: Option<String>,
    pub base2: Option<String>,
    pub base3: Option<String>,
}

impl Clone for GameState {
    fn clone(&self) -> (copy: Self)
        ensures
            copy == *self,
    {
        GameState {
            home_score: self.home_score.clone(),
            away_score: self.away_score.clone(),
            pitcher: self.pitcher.clone(),
            batter: self.batter.clone(),
            strike: self.strike.clone(),
            ball: self.ball.clone(),
            out: self.out.clone(),
            base1: self.base1.clone(),
            base2: self.base2.clone(),
            base3: self.base3.clone(),
        }
    }
}

/// The schedule is asked for by the given category, from the given date to the same date.
pub proof fn law_schedule_is_of_one_day(date: Seq<char>, category: Seq<char>)
    ensures
        ({
            let query = schedule_query(date, category);
            &&& query.len() == 6
            &&& query.contains(("categoryId"@, category))
            &&& query.contains(("fromDate"@, date))
            &&& query.contains(("toDate"@, date))
            &&& query.contains(("upperCategoryId"@, "kbaseball"@))
            &&& query.contains(("fields"@, SCHEDULE_FIELDS@))
            &&& query.contains(("size"@, "500"@))
        }),
{
    let query = schedule_query(date, category);
    assert(query[0] == ("fields"@, SCHEDULE_FIELDS@));
    assert(query[1] == ("upperCategoryId"@, "kbaseball"@));
    assert(query[2] == ("categoryId"@, category));
    assert(query[3] == ("fromDate"@, date));
    assert(query[4] == ("toDate"@, date));
    assert(query[5] == ("size"@, "500"@));
}

/// What is told of a failed request ends with its address, and a refusal tells its code.
pub proof fn law_failures_name_the_address(failure: ApiFailure, url: Seq<char>)
    ensures
        url.is_suffix_of(failure_text(failure, url)),
        failure_text(failure, url).len() > url.len(),
        failure matches ApiFailure::Refused(code) ==> failure_text(failure, url)
            == "네이버 스포츠 API 오류(code="@ + signed_decimal(code as int) + "): "@ + url,
{
    reveal_strlit("네이버 스포츠 API 요청 실패: ");
    reveal_strlit("네이버 스포츠 API HTTP 오류: ");
    reveal_strlit("네이버 스포츠 API 응답 파싱 실패: ");
    reveal_strlit("네이버 스포츠 API 오류(code=");
    reveal_strlit("): ");
}

/// A game is on exactly while the service says so. It is over exactly where the service says
/// that it has a result or was called off, in either of two ways.
pub proof fn law_games_start_and_finish(game: Game)
    ensures
        game.started() <==> game.status_code is Some && game.status_code->0@ == "STARTED"@,
        game.finished() <==> (game.status_code is Some && (game.status_code->0@ == "RESULT"@
            || game.status_code->0@ == "CANCEL"@)) || game.cancel == Some(true),
        game.started() && game.cancel != Some(true) ==> !game.finished(),
{
    reveal_strlit("STARTED");
    reveal_strlit("RESULT");
    reveal_strlit("CANCEL");
    assert("STARTED"@[0] != "RESULT"@[0] && "STARTED"@[0] != "CANCEL"@[0]);
}

/// The label of a game says that it is called off, or else that it is suspended, whatever its
/// code; or else what its code says, and for a game to come, or one with an unknown code,
/// what the service words itself.
pub proof fn law_labels_of_games(game: Game)
    ensures
        game.cancel == Some(true) ==> game.label() == "취소"@,
        game.cancel != Some(true) && game.suspended == Some(true) ==> game.label() == "중단"@,
        game.cancel != Some(true) && game.suspended != Some(true) && game.status_code is Some ==> {
            let code = game.status_code->0@;
            &&& code == "STARTED"@ ==> game.label() == "LIVE"@
            &&& code == "RESULT"@ ==> game.label() == "종료"@
            &&& code == "CANCEL"@ ==> game.label() == "취소"@
            &&& code == "BEFORE"@ && game.status_info is None ==> game.label() == "경기전"@
        },
        game.cancel != Some(true) && game.suspended != Some(true) && (game.status_code is None || (
        game.status_code->0@ != "STARTED"@ && game.status_code->0@ != "RESULT"@
            && game.status_code->0@ != "CANCEL"@)) ==> {
            &&& game.status_info is Some ==> game.label() == game.status_info->0@
            &&& game.status_info is None && (game.status_code is None || game.status_code->0@
                != "BEFORE"@) ==> game.label() == "상태없음"@
        },
{
    reveal_strlit("BEFORE");
    reveal_strlit("STARTED");
    reveal_strlit("RESULT");
    reveal_strlit("CANCEL");
    assert("BEFORE"@[0] != "STARTED"@[0] && "BEFORE"@[0] != "RESULT"@[0] && "BEFORE"@[0]
        != "CANCEL"@[0]);
    assert("STARTED"@[0] != "RESULT"@[0] && "STARTED"@[0] != "CANCEL"@[0]);
    assert("RESULT"@[0] != "CANCEL"@[0]);
}

/// The start of a game is what stands behind the first `T` of its date and time, five
/// characters at most; without a `T`, or without a date, it is not known.
pub proof fn law_start_follows_the_date(game: Game, date: Seq<char>, time: Seq<char>)
    requires
        !date.contains('T'),
    ensures
        game.game_date_time is Some && game.game_date_time->0@ == date + seq!['T'] + time
            ==> game.start_time() == (if time.len() <= 5 {
            time
        } else {
            time.take(5)
        }),
        game.game_date_time is None || game.game_date_time->0@ == date ==> game.start_time()
            == "--:--"@,
{
    lemma_after_first(date, time);
}

proof fn lemma_after_first(date: Seq<char>, time: Seq<char>)
    requires
        !date.contains('T'),
    ensures
        after_first(date + seq!['T'] + time, 'T') == Some(time),
        after_first(date, 'T') is None,
    decreases date.len(),
{
    let whole = date + seq!['T'] + time;
    if date.len() == 0 {
        assert(whole.skip(1) =~= time);
    } else {
        let rest = date.skip(1);
        assert(date.contains(date[0]));
        assert(!rest.contains('T')) by {
            if rest.contains('T') {
                let i = choose|i: int| 0 <= i < rest.len() && rest[i] == 'T';
                assert(date[i + 1] == 'T');
            }
        }
        assert(whole.skip(1) =~= rest + seq!['T'] + time);
        lemma_after_first(rest, time);
    }
}

/// The page of a schedule ends with the category that is asked for, and names the date before
/// it. The page and the address of a game hold its name.
pub proof fn law_pages_name_what_is_asked(date: Seq<char>, category: Seq<char>, game_id: Seq<char>)
    ensures
        (date + "&category="@ + category).is_suffix_of(schedule_page(date, category)),
        MOBILE_BASE@.is_prefix_of(schedule_page(date, category)),
        (game_id + "/relay"@).is_suffix_of(game_page(game_id)),
        MOBILE_BASE@.is_prefix_of(game_page(game_id)),
        (game_id + "/game-polling"@).is_suffix_of(polling_address(game_id)),
        API_BASE@.is_prefix_of(polling_address(game_id)),
{
    let page = schedule_page(date, category);
    let tail = date + "&category="@ + category;
    assert(page =~= MOBILE_BASE@ + "/kbaseball/schedule/index?date="@ + tail);
    assert(page.skip(page.len() - tail.len()) =~= tail);
    assert(page.take(MOBILE_BASE@.len() as int) =~= MOBILE_BASE@);
    let game = game_page(game_id);
    let end = game_id + "/relay"@;
    assert(game =~= MOBILE_BASE@ + "/game/"@ + end);
    assert(game.skip(game.len() - end.len()) =~= end);
    assert(game.take(MOBILE_BASE@.len() as int) =~= MOBILE_BASE@);
    let address = polling_address(game_id);
    let last = game_id + "/game-polling"@;
    assert(address =~= API_BASE@ + "/schedule/games/"@ + last);
    assert(address.skip(address.len() - last.len()) =~= last);
    assert(address.take(API_BASE@.len() as int) =~= API_BASE@);
}

} // verus!
