use kbo_cli::naver::{
    failure_message, polling_request, schedule_request, ApiFailure, ApiResponse, Game,
    ScheduleResult, USER_AGENT,
};
use kbo_cli::scores::ScoreTable;

fn game() -> Game {
    Game {
        game_id: "20260707LGOB02026".to_string(),
        game_date_time: Some("2026-07-07T18:30:00".to_string()),
        home_team_name: "두산".to_string(),
        away_team_name: "LG".to_string(),
        home_team_score: None,
        away_team_score: None,
        status_code: None,
        status_info: None,
        cancel: None,
        suspended: None,
        home_starter_name: None,
        away_starter_name: None,
        home_current_pitcher_name: None,
        away_current_pitcher_name: None,
        current_inning: None,
        home_team_score_by_inning: vec![],
        away_team_score_by_inning: vec![],
    }
}

fn with_code(code: &str) -> Game {
    Game { status_code: Some(code.to_string()), ..game() }
}

#[test]
fn a_game_starts_and_finishes() {
    assert!(with_code("STARTED").is_started());
    assert!(!with_code("RESULT").is_started());
    assert!(!game().is_started());
    assert!(with_code("RESULT").is_finished());
    assert!(with_code("CANCEL").is_finished());
    assert!(!with_code("STARTED").is_finished());
    assert!(!game().is_finished());
    assert!(Game { cancel: Some(true), ..with_code("BEFORE") }.is_finished());
    assert!(!Game { cancel: Some(false), ..with_code("BEFORE") }.is_finished());
}

#[test]
fn a_game_has_a_label() {
    assert_eq!(Game { cancel: Some(true), ..with_code("STARTED") }.status_label(), "취소");
    assert_eq!(Game { suspended: Some(true), ..with_code("STARTED") }.status_label(), "중단");
    assert_eq!(with_code("BEFORE").status_label(), "경기전");
    let told = Game { status_info: Some("우천 지연".to_string()), ..with_code("BEFORE") };
    assert_eq!(told.status_label(), "우천 지연");
    assert_eq!(with_code("STARTED").status_label(), "LIVE");
    assert_eq!(with_code("RESULT").status_label(), "종료");
    assert_eq!(with_code("CANCEL").status_label(), "취소");
    assert_eq!(with_code("READY").status_label(), "상태없음");
    assert_eq!(game().status_label(), "상태없음");
    let told = Game { status_info: Some("5회말".to_string()), ..game() };
    assert_eq!(told.status_label(), "5회말");
}

#[test]
fn a_game_has_a_start() {
    assert_eq!(game().starts_at_hhmm(), "18:30");
    let at = |text: &str| Game { game_date_time: Some(text.to_string()), ..game() };
    assert_eq!(at("T9").starts_at_hhmm(), "9");
    assert_eq!(at("2026-07-07").starts_at_hhmm(), "--:--");
    assert_eq!(at("aTbTc").starts_at_hhmm(), "bTc");
    assert_eq!(at("xT").starts_at_hhmm(), "");
    assert_eq!(Game { game_date_time: None, ..game() }.starts_at_hhmm(), "--:--");
}

#[test]
fn the_schedule_is_asked_for() {
    let request = schedule_request("2026-07-07", "kbo");
    assert_eq!(request.url, "https://api-gw.sports.naver.com/schedule/games");
    let expected = [
        ("fields", "basic,schedule,baseball,manualRelayUrl"),
        ("upperCategoryId", "kbaseball"),
        ("categoryId", "kbo"),
        ("fromDate", "2026-07-07"),
        ("toDate", "2026-07-07"),
        ("size", "500"),
    ];
    assert_eq!(request.query.len(), expected.len());
    for (pair, (name, value)) in request.query.iter().zip(expected) {
        assert_eq!((pair.0.as_str(), pair.1.as_str()), (name, value));
    }
    assert_eq!(
        request.referer,
        "https://m.sports.naver.com/kbaseball/schedule/index?date=2026-07-07&category=kbo"
    );
}

#[test]
fn a_poll_is_asked_for() {
    let request = polling_request("G1");
    assert_eq!(request.url, "https://api-gw.sports.naver.com/schedule/games/G1/game-polling");
    assert!(request.query.is_empty());
    assert_eq!(request.referer, "https://m.sports.naver.com/game/G1/relay");
    assert!(USER_AGENT.starts_with("Mozilla/5.0 (Macintosh"));
    assert!(USER_AGENT.ends_with("Chrome/126.0 Safari/537.36 kbo-cli/0.1"));
}

#[test]
fn failures_are_worded() {
    assert_eq!(failure_message(ApiFailure::Request, "u"), "네이버 스포츠 API 요청 실패: u");
    assert_eq!(failure_message(ApiFailure::Status, "u"), "네이버 스포츠 API HTTP 오류: u");
    assert_eq!(failure_message(ApiFailure::Body, "u"), "네이버 스포츠 API 응답 파싱 실패: u");
    assert_eq!(
        failure_message(ApiFailure::Refused(-3), "u"),
        "네이버 스포츠 API 오류(code=-3): u"
    );
}

#[test]
fn an_answer_is_taken_or_refused() {
    let taken = ApiResponse { code: 200, success: true, result: 7u8 };
    assert_eq!(taken.into_result(), Ok(7));
    let refused = ApiResponse { code: 404, success: false, result: 7u8 };
    assert_eq!(refused.into_result(), Err(ApiFailure::Refused(404)));
    let schedule = ScheduleResult { games: vec![game()], game_total_count: Some(1) };
    assert_eq!(schedule.games.len(), 1);
}

#[test]
fn a_table_keeps_the_last_value() {
    let mut table = ScoreTable::new();
    assert_eq!(table.get("1"), None);
    assert_eq!(table.highest(), None);
    table.insert("1".to_string(), "0".to_string());
    table.insert("3".to_string(), "2".to_string());
    table.insert("1".to_string(), "4".to_string());
    table.insert("R".to_string(), "6".to_string());
    assert_eq!(table.get("1"), Some(&"4".to_string()));
    assert_eq!(table.get("2"), None);
    assert_eq!(table.highest(), Some(3));
    let copy = table.clone();
    assert_eq!(copy.get("3"), Some(&"2".to_string()));
    table.insert("+10".to_string(), "1".to_string());
    assert_eq!(table.highest(), Some(10));
    assert_eq!(copy.highest(), Some(3));
}
