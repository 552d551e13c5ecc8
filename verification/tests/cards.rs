use kbo_cli::card::{
    build_cards, card_for, half_label, non_empty_scores, occupied, parse_count, Bases, GameCard,
};
use kbo_cli::naver::{
    Game, GamePollingResult, GameState, InningScore, Lineup, Player, TextOption, TextRelayData,
    TextRelayGroup,
};
use kbo_cli::players::{
    current_pitcher_fallback, find_player, format_avg, format_starters, player_label, Side,
};
use kbo_cli::relay::{collect_events, latest_state, relay_numbers_fit};
use kbo_cli::scores::ScoreTable;

fn some(text: &str) -> Option<String> {
    Some(text.to_string())
}

fn game() -> Game {
    Game {
        game_id: "G".to_string(),
        game_date_time: some("2026-07-07T18:30:00"),
        home_team_name: "두산".to_string(),
        away_team_name: "LG".to_string(),
        home_team_score: Some(2),
        away_team_score: Some(1),
        status_code: some("STARTED"),
        status_info: None,
        cancel: None,
        suspended: None,
        home_starter_name: some("곽빈"),
        away_starter_name: some("임찬규"),
        home_current_pitcher_name: None,
        away_current_pitcher_name: some("유영찬"),
        current_inning: None,
        home_team_score_by_inning: vec![],
        away_team_score_by_inning: vec![],
    }
}

fn state() -> GameState {
    GameState {
        home_score: None,
        away_score: None,
        pitcher: None,
        batter: None,
        strike: None,
        ball: None,
        out: None,
        base1: None,
        base2: None,
        base3: None,
    }
}

fn relay() -> TextRelayData {
    TextRelayData {
        inn: Some(7),
        home_or_away: some("0"),
        inning_score: None,
        home_entry: None,
        away_entry: None,
        home_lineup: None,
        away_lineup: None,
        current_game_state: None,
        text_relays: vec![],
    }
}

fn option(seqno: Option<u64>, text: &str, out: Option<&str>) -> TextOption {
    TextOption {
        seqno,
        text: some(text),
        current_game_state: out.map(|out| GameState { out: some(out), ..state() }),
    }
}

fn player(name: &str, pcode: &str) -> Player {
    Player {
        name: name.to_string(),
        pcode: pcode.to_string(),
        season_hra: None,
        today_hra: None,
        season_era: None,
        today_era: None,
    }
}

fn group(no: Option<u64>, text_options: Vec<TextOption>) -> TextRelayGroup {
    TextRelayGroup { no, text_options }
}

#[test]
fn events_come_in_order() {
    let data = TextRelayData {
        text_relays: vec![
            group(Some(2), vec![option(None, " 둘 ", None), option(Some(9), "구", Some("1"))]),
            group(Some(1), vec![option(Some(2000), "가려짐", None), option(None, "하나", None)]),
            group(None, vec![option(None, "영", None), option(None, "=== --", None)]),
            group(None, vec![option(None, "가려진 영", None), option(None, "  ", None)]),
            group(None, vec![TextOption { seqno: Some(1), text: None, current_game_state: None }]),
        ],
        ..relay()
    };
    assert!(relay_numbers_fit(&data));
    let events = collect_events(&data);
    let told: Vec<(u64, &str)> = events.iter().map(|e| (e.seqno, e.text.as_str())).collect();
    assert_eq!(told, vec![(0, "영"), (9, "구"), (1001, "하나"), (2000, "둘")]);
    assert_eq!(events[1].state.as_ref().unwrap().out, some("1"));
    assert!(events[0].state.is_none());
}

#[test]
fn numbers_may_not_fit() {
    let with = |no: u64, options: Vec<TextOption>| TextRelayData {
        text_relays: vec![group(Some(no), options)],
        ..relay()
    };
    let two = || vec![option(None, "a", None), option(None, "b", None)];
    assert!(!relay_numbers_fit(&with(u64::MAX, two())));
    assert!(relay_numbers_fit(&with(u64::MAX, vec![option(None, "a", None)])));
    assert!(relay_numbers_fit(&with(
        u64::MAX,
        vec![option(None, "a", None), option(None, "-", None), option(Some(3), "c", None)]
    )));
    let data = with(18446744073709551, two());
    assert!(relay_numbers_fit(&data));
    assert_eq!(collect_events(&data)[1].seqno, 18446744073709551001);
}

#[test]
fn the_last_state_is_found() {
    let told = TextRelayData {
        text_relays: vec![
            group(None, vec![option(None, "a", Some("1")), option(None, "b", Some("2"))]),
            group(None, vec![option(None, "c", None)]),
        ],
        ..relay()
    };
    assert_eq!(latest_state(&told).unwrap().out, some("2"));
    let current = TextRelayData {
        current_game_state: Some(GameState { out: some("0"), ..state() }),
        ..told
    };
    assert_eq!(latest_state(&current).unwrap().out, some("0"));
    assert_eq!(latest_state(&relay()), None);
}

#[test]
fn a_polled_card_has_the_newest_first() {
    let data = TextRelayData {
        text_relays: vec![group(
            None,
            vec![
                option(Some(1), "하나", Some("1")),
                option(Some(3), "셋", None),
                option(Some(2), "둘", Some("2")),
            ],
        )],
        ..relay()
    };
    let card = GameCard::from_polling(4, game(), Some(data));
    assert_eq!(card.index, 4);
    let told: Vec<u64> = card.latest_events.iter().map(|e| e.seqno).collect();
    assert_eq!(told, vec![3, 2, 1]);
    assert_eq!(card.state.as_ref().unwrap().out, some("2"));
    assert!(card.error.is_none());
    let current = TextRelayData {
        current_game_state: Some(GameState { out: some("1"), ..state() }),
        ..relay()
    };
    let card = GameCard::from_polling(0, game(), Some(current));
    assert_eq!(card.outs(), 1);
    assert_eq!(GameCard::from_polling(0, game(), None).state, None);
}

#[test]
fn a_failed_card_tells_why() {
    let card = GameCard::from_error(2, game(), "HTTP\n 오류".to_string());
    assert_eq!(card.recent_plays(5), vec!["API 오류: HTTP 오류".to_string()]);
    assert!(card.relay.is_none() && card.state.is_none() && card.latest_events.is_empty());
    assert_eq!(card_for(2, game(), Err("x".to_string())).error, some("x"));
}

#[test]
fn cards_are_built_in_order() {
    let games = vec![game(), Game { game_id: "H".to_string(), ..game() }];
    let polled = Game { game_id: "P".to_string(), ..game() };
    let cards = build_cards(
        games,
        vec![
            Ok(GamePollingResult { game: polled, text_relay_data: Some(relay()) }),
            Err("끊김".to_string()),
        ],
    );
    assert_eq!(cards.len(), 2);
    assert_eq!((cards[0].index, cards[0].game.game_id.as_str()), (0, "P"));
    assert!(cards[0].relay.is_some());
    assert_eq!((cards[1].index, cards[1].game.game_id.as_str()), (1, "H"));
    assert_eq!(cards[1].error, some("끊김"));
}

fn card_with(state: GameState) -> GameCard {
    let data = TextRelayData { current_game_state: Some(state), ..relay() };
    GameCard::from_polling(0, game(), Some(data))
}

#[test]
fn runs_come_from_the_relay_first() {
    let told = card_with(GameState { away_score: some("+11"), home_score: some("x"), ..state() });
    assert_eq!(told.score(), (11, 2));
    assert_eq!(card_with(state()).score(), (1, 2));
    let none = Game { home_team_score: None, away_team_score: None, ..game() };
    assert_eq!(GameCard::from_polling(0, none, None).score(), (0, 0));
}

#[test]
fn the_state_of_a_game_is_worded() {
    let card = card_with(GameState { out: some("2"), ..state() });
    assert_eq!(card.header_status(), "7회초 2사");
    assert_eq!(card_with(state()).header_status(), "7회초 0사");
    let bottom = TextRelayData { home_or_away: some("1"), ..relay() };
    assert_eq!(GameCard::from_polling(0, game(), Some(bottom)).header_status(), "7회말 0사");
    let unknown = TextRelayData { inn: None, ..relay() };
    assert_eq!(GameCard::from_polling(0, game(), Some(unknown)).header_status(), "LIVE 0사");
    let before = Game { status_code: some("BEFORE"), ..game() };
    assert_eq!(GameCard::from_polling(0, before, None).header_status(), "경기전 18:30");
    let over = Game { status_code: some("RESULT"), ..game() };
    assert_eq!(GameCard::from_polling(0, over, None).header_status(), "종료");
    let over = Game { status_code: some("RESULT"), current_inning: some("9회말"), ..game() };
    assert_eq!(GameCard::from_polling(0, over, None).header_status(), "9회말");
}

#[test]
fn sides_and_bases_are_read() {
    let side = |text: Option<&str>| {
        let data = TextRelayData { home_or_away: text.map(str::to_string), ..relay() };
        GameCard::from_polling(0, game(), Some(data)).attack_side()
    };
    assert_eq!(side(Some("0")), Some(Side::Away));
    assert_eq!(side(Some("1")), Some(Side::Home));
    assert_eq!(side(Some("2")), None);
    assert_eq!(side(None), None);
    assert_eq!(GameCard::from_polling(0, game(), None).attack_side(), None);
    let card = card_with(GameState {
        base1: some("3"),
        base2: some("0"),
        base3: some(""),
        ball: some("3"),
        strike: some("9"),
        out: some("둘"),
        ..state()
    });
    assert_eq!(card.bases(), Bases { first: true, second: false, third: false });
    assert_eq!((card.balls(), card.strikes(), card.outs()), (3, 9, 0));
    assert_eq!(GameCard::from_polling(0, game(), None).bases(), Bases::default());
    assert_eq!(half_label(&some("0")), "초");
    assert_eq!(half_label(&some("1")), "말");
    assert_eq!(half_label(&some("x")), "");
    assert_eq!(half_label(&None), "");
    assert!(occupied(&some("62947")) && !occupied(&some("0")) && !occupied(&None));
    assert_eq!(parse_count(&some("2")), 2);
    assert_eq!(parse_count(&some("-2")), 0);
    assert_eq!(parse_count(&None), 0);
}

fn lineups() -> TextRelayData {
    TextRelayData {
        away_lineup: Some(Lineup {
            batter: vec![
                Player { season_hra: some("0.312"), ..player("홍창기", "1") },
                player("둘째", "2"),
            ],
            pitcher: vec![player("원정투수", "9")],
        }),
        away_entry: Some(Lineup { batter: vec![player("대타", "1")], pitcher: vec![] }),
        home_lineup: Some(Lineup {
            batter: vec![player("홈타자", "1")],
            pitcher: vec![Player { season_era: some("3.10"), ..player("곽빈", "9") }],
        }),
        home_entry: None,
        ..relay()
    }
}

#[test]
fn batter_and_pitcher_are_of_opposite_teams() {
    let named = GameState { batter: some("1"), pitcher: some("9"), ..state() };
    let away = TextRelayData { current_game_state: Some(named.clone()), ..lineups() };
    let card = GameCard::from_polling(0, game(), Some(away));
    assert_eq!(card.current_batter(false), "홍창기 AVG .312");
    assert_eq!(card.current_pitcher(false), "곽빈 ERA 3.10");
    let home = TextRelayData {
        current_game_state: Some(named.clone()),
        home_or_away: some("1"),
        ..lineups()
    };
    let card = GameCard::from_polling(0, game(), Some(home));
    assert_eq!(card.current_batter(false), "홈타자");
    assert_eq!(card.current_pitcher(false), "원정투수");
    let unknown = TextRelayData { current_game_state: Some(named), home_or_away: None, ..lineups() };
    let card = GameCard::from_polling(0, game(), Some(unknown));
    assert_eq!(card.current_batter(false), "-");
    assert_eq!(card.current_pitcher(false), "선발 임찬규 vs 곽빈");
}

#[test]
fn unnamed_players_fall_back() {
    let nobody = GameState { batter: some("77"), pitcher: some("77"), ..state() };
    let data = TextRelayData { current_game_state: Some(nobody), ..lineups() };
    let card = GameCard::from_polling(0, game(), Some(data));
    assert_eq!(card.current_batter(false), "-");
    assert_eq!(card.current_pitcher(true), "\x1b[1m곽빈\x1b[0m");
    let card = card_with(state());
    assert_eq!(card.current_batter(false), "-");
    assert_eq!(card.current_pitcher(false), "곽빈");
    let card = GameCard::from_polling(0, game(), None);
    assert_eq!(card.current_batter(false), "-");
    assert_eq!(card.current_pitcher(false), "선발 임찬규 vs 곽빈");
}

#[test]
fn players_are_found_and_shown() {
    let data = lineups();
    let found = find_player("1", [&data.away_lineup, &data.away_entry]);
    assert_eq!(found.unwrap().name, "홍창기");
    assert_eq!(find_player("9", [&None, &data.away_lineup]).unwrap().name, "원정투수");
    assert!(find_player("3", [&data.away_lineup, &data.away_entry]).is_none());
    assert!(find_player("1", [&None, &None]).is_none());
    let both = Player {
        today_hra: some("1.000"),
        season_hra: some("0.250"),
        today_era: some("0.00"),
        ..player("가", "1")
    };
    assert_eq!(player_label(false, &both), "가 AVG 1.000");
    assert_eq!(player_label(true, &both), "\x1b[1m가\x1b[0m \x1b[2mAVG 1.000\x1b[0m");
    let day = Player { today_era: some("0.00"), season_era: some("9.9"), ..player("나", "1") };
    assert_eq!(player_label(false, &day), "나 ERA 0.00");
    assert_eq!(player_label(false, &player("다", "1")), "다");
    assert_eq!(format_avg("0.312"), ".312");
    assert_eq!(format_avg("1.000"), "1.000");
    assert_eq!(format_avg(""), "");
}

#[test]
fn pitchers_are_told_without_a_relay() {
    assert_eq!(current_pitcher_fallback(false, &game(), Some(Side::Away)), "곽빈");
    assert_eq!(current_pitcher_fallback(false, &game(), Some(Side::Home)), "유영찬");
    let nobody = Game { home_starter_name: None, ..game() };
    assert_eq!(current_pitcher_fallback(true, &nobody, Some(Side::Away)), "\x1b[2m-\x1b[0m");
    assert_eq!(format_starters(false, &nobody), "-");
    let empty = Game { home_starter_name: some(""), away_starter_name: some(""), ..game() };
    assert_eq!(format_starters(false, &empty), "-");
    let half = Game { home_starter_name: some(""), ..game() };
    assert_eq!(format_starters(false, &half), "선발 임찬규 vs ");
    assert_eq!(
        format_starters(true, &game()),
        "\x1b[2m선발\x1b[0m 임찬규 \x1b[2mvs\x1b[0m 곽빈"
    );
}

fn table(entries: &[(&str, &str)]) -> ScoreTable {
    let mut table = ScoreTable::new();
    for (name, value) in entries {
        table.insert(name.to_string(), value.to_string());
    }
    table
}

#[test]
fn innings_come_from_the_relay_first() {
    let score = InningScore {
        home: table(&[("1", "0"), ("02", "5")]),
        away: table(&[("3", "1"), ("x", "9")]),
    };
    let data = TextRelayData { inning_score: Some(score), ..relay() };
    let (away, home) = GameCard::from_polling(0, game(), Some(data)).inning_lines();
    assert_eq!(away, vec!["-", "-", "1"]);
    assert_eq!(home, vec!["0", "-", "-"]);
    let none = InningScore { home: table(&[]), away: table(&[]) };
    let data = TextRelayData { inning_score: Some(none), ..relay() };
    let (away, home) = GameCard::from_polling(0, game(), Some(data)).inning_lines();
    assert_eq!((away, home), (vec!["-".to_string()], vec!["-".to_string()]));
    let zero = InningScore { home: table(&[("0", "1")]), away: table(&[]) };
    let data = TextRelayData { inning_score: Some(zero), ..relay() };
    let (away, home) = GameCard::from_polling(0, game(), Some(data)).inning_lines();
    assert!(away.is_empty() && home.is_empty());
}

#[test]
fn innings_come_from_the_schedule_otherwise() {
    let scheduled = Game {
        home_team_score_by_inning: vec!["0".to_string(), "".to_string(), "3".to_string()],
        ..game()
    };
    let (away, home) = GameCard::from_polling(0, scheduled, Some(relay())).inning_lines();
    assert!(away.is_empty());
    assert_eq!(home, vec!["0", "3"]);
    assert!(non_empty_scores(&vec!["".to_string()]).is_empty());
}

#[test]
fn recent_plays_are_different() {
    let texts = ["하나", "둘", "둘  ", "셋", "하나"];
    let options = texts
        .iter()
        .enumerate()
        .map(|(i, text)| option(Some(i as u64), text, None))
        .collect();
    let data = || TextRelayData { text_relays: vec![], ..relay() };
    let data = TextRelayData { text_relays: vec![group(None, options)], ..data() };
    let card = GameCard::from_polling(0, game(), Some(data));
    assert_eq!(card.recent_plays(9), vec!["하나", "셋", "둘"]);
    assert_eq!(card.recent_plays(2), vec!["하나", "셋"]);
    assert_eq!(card.recent_plays(0), vec!["하나"]);
    let card = GameCard::from_polling(0, game(), Some(relay()));
    assert_eq!(card.recent_plays(3), vec!["문자중계 대기 중"]);
    let over = Game { status_code: some("RESULT"), ..game() };
    let card = GameCard::from_polling(0, over, None);
    assert_eq!(card.recent_plays(3), vec!["문자중계 없음"]);
}
