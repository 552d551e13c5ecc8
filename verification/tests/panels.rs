use kbo_cli::card::{Bases, GameCard};
use kbo_cli::competition::Competition;
use kbo_cli::naver::{
    Game, GameState, InningScore, TextOption, TextRelayData, TextRelayGroup,
};
use kbo_cli::panel::{
    bottom_border, count_lines, diamond_lines, inning_table, label_value, mid_border, panel_body,
    render_panel, score_cells, score_row, status_text, top_border,
};
use kbo_cli::scores::ScoreTable;
use kbo_cli::width::visual_width;

fn game(status: &str) -> Game {
    Game {
        game_id: "G".to_string(),
        game_date_time: Some("2026-07-07T18:30:00".to_string()),
        home_team_name: "두산".to_string(),
        away_team_name: "LG".to_string(),
        home_team_score: None,
        away_team_score: None,
        status_code: Some(status.to_string()),
        status_info: None,
        cancel: None,
        suspended: None,
        home_starter_name: None,
        away_starter_name: None,
        home_current_pitcher_name: None,
        away_current_pitcher_name: None,
        current_inning: None,
        home_team_score_by_inning: vec![],
        away_team_score_by_inning: vec![],
    }
}

fn played() -> GameCard {
    let mut away = ScoreTable::new();
    away.insert("1".to_string(), "0".to_string());
    away.insert("3".to_string(), "12".to_string());
    let mut home = ScoreTable::new();
    home.insert("2".to_string(), "1".to_string());
    let texts = ["첫 타석", "볼넷", "삼진 아웃", "안타", "홈런"];
    let options = texts
        .iter()
        .enumerate()
        .map(|(i, text)| TextOption {
            seqno: Some(i as u64),
            text: Some(text.to_string()),
            current_game_state: None,
        })
        .collect();
    let relay = TextRelayData {
        inn: Some(3),
        home_or_away: Some("1".to_string()),
        inning_score: Some(InningScore { home, away }),
        home_entry: None,
        away_entry: None,
        home_lineup: None,
        away_lineup: None,
        current_game_state: Some(GameState {
            home_score: Some("1".to_string()),
            away_score: Some("12".to_string()),
            pitcher: None,
            batter: None,
            strike: Some("2".to_string()),
            ball: Some("1".to_string()),
            out: Some("1".to_string()),
            base1: Some("5".to_string()),
            base2: None,
            base3: Some("0".to_string()),
        }),
        text_relays: vec![TextRelayGroup { no: Some(1), text_options: options }],
    };
    GameCard::from_polling(0, game("STARTED"), Some(relay))
}

#[test]
fn a_row_shows_the_runs() {
    assert_eq!(score_row(false, "LG", 1, true), "   L G        1  ◀ 공격");
    assert_eq!(score_row(false, "두산", -12, false), "   두산     -12");
    assert_eq!(score_row(false, "두산", 1234, false), "   두산     1234");
    assert_eq!(
        score_row(true, "LG", 1, true),
        "  \x1b[1m\x1b[48;2;195;4;82m\x1b[38;2;255;255;255m L G \x1b[49m\x1b[39m\x1b[22m     \
         \x20 \x1b[38;2;195;4;82m\x1b[1m1\x1b[0m\x1b[39m  \x1b[36m◀ 공격\x1b[0m"
    );
}

#[test]
fn a_value_has_a_label() {
    assert_eq!(label_value(false, "타자", "홍창기"), "  타자  홍창기");
    assert_eq!(label_value(false, "B", "-"), "  B     -");
    assert_eq!(label_value(true, "B", "-"), "  \x1b[2mB   \x1b[0m  -");
}

#[test]
fn the_diamond_shows_runners() {
    let bases = Bases { first: true, second: false, third: false };
    let rows = diamond_lines(false, &bases);
    assert_eq!(rows[0], "       ◇       ");
    assert_eq!(rows[1], "     ╱   ╲     ");
    assert_eq!(rows[2], "   ◇       ◆   ");
    assert_eq!(rows[3], "     ╲   ╱     ");
    assert_eq!(rows[4], "       ⌂       ");
    let rows = diamond_lines(true, &Bases { first: false, second: true, third: true });
    assert_eq!(rows[0], "       \x1b[33m◆\x1b[0m       ");
    assert_eq!(rows[2], "   \x1b[33m◆\x1b[0m       \x1b[2m◇\x1b[0m   ");
}

#[test]
fn counts_are_dots() {
    assert_eq!(count_lines(false, 1, 5, 0), ["", "B  ●○○", "S  ●●", "O  ○○", ""]);
    let rows = count_lines(true, 1, 0, 2);
    assert_eq!(rows[1], "B  \x1b[32m●\x1b[0m\x1b[2m○\x1b[0m\x1b[2m○\x1b[0m");
    assert_eq!(rows[3], "O  \x1b[31m●\x1b[0m\x1b[31m●\x1b[0m");
}

#[test]
fn cells_are_two_wide() {
    let scores = vec!["0".to_string(), "-".to_string(), "12".to_string()];
    assert_eq!(score_cells(false, &scores, 4), " 0  - 12  -");
    assert_eq!(score_cells(false, &scores, 2), " 0  -");
    assert_eq!(score_cells(false, &scores, 0), "");
    assert_eq!(score_cells(true, &vec![], 1), "\x1b[2m -\x1b[0m");
}

#[test]
fn innings_make_a_table() {
    let rows = inning_table(false, &played(), 40);
    assert_eq!(rows, vec!["  회       1  2  3", "  LG       0  - 12", "  두산     -  1  -"]);
    let rows = inning_table(false, &played(), 15);
    assert_eq!(rows, vec!["  회       1  2", "  LG       0  -", "  두산     -  1"]);
    assert_eq!(inning_table(false, &played(), 0)[0], "  회       1");
    let none = GameCard::from_polling(0, game("BEFORE"), None);
    assert_eq!(inning_table(false, &none, 40), vec!["  회", "  스코어보드 대기 중"]);
    let long = Game {
        away_team_score_by_inning: vec!["1".to_string(); 15],
        ..game("RESULT")
    };
    let rows = inning_table(false, &GameCard::from_polling(0, long, None), 100);
    assert_eq!(rows[0], "  회       1  2  3  4  5  6  7  8  9 10 11 12");
    assert_eq!(rows[2], "  두산     -  -  -  -  -  -  -  -  -  -  -  -");
}

#[test]
fn borders_go_around() {
    assert_eq!(top_border(false, "KBO", 10), "┌─ KBO ────┐");
    assert_eq!(top_border(false, "ABCDEFGH", 6), "┌─ ABC…┐");
    assert_eq!(top_border(false, "A", 0), "┌─…┐");
    assert_eq!(mid_border(false, 3), "├───┤");
    assert_eq!(bottom_border(false, 0), "└┘");
    assert_eq!(bottom_border(true, 1), "\x1b[2m└─┘\x1b[0m");
}

#[test]
fn a_title_tells_the_state() {
    assert_eq!(status_text(false, &played()), "● LIVE 3회말 1사");
    assert_eq!(status_text(true, &played()), "\x1b[32m● LIVE\x1b[0m \x1b[2m3회말 1사\x1b[0m");
    let over = GameCard::from_polling(0, game("RESULT"), None);
    assert_eq!(status_text(true, &over), "\x1b[2m종료\x1b[0m");
    let before = GameCard::from_polling(0, game("BEFORE"), None);
    assert_eq!(status_text(true, &before), "\x1b[36m경기전 18:30\x1b[0m");
}

#[test]
fn a_body_holds_what_fits() {
    let body = panel_body(false, &played(), 40, 19);
    assert_eq!(
        body,
        vec![
            "   L G       12",
            "   두산       1  ◀ 공격",
            "",
            "       ◇         ",
            "     ╱   ╲       B  ●○○",
            "   ◇       ◆     S  ●●",
            "     ╲   ╱       O  ●○",
            "       ⌂         ",
            "",
            "  타자  -",
            "  투수  -",
            "",
            "  회       1  2  3",
            "  LG       0  - 12",
            "  두산     -  1  -",
            "",
            "─ 최근 플레이 ─",
            "  ▸ 홈런",
            "  ▸ 안타",
        ]
    );
    assert_eq!(panel_body(false, &played(), 40, 50).len(), 22);
    assert_eq!(panel_body(false, &played(), 40, 2).len(), 2);
    assert!(panel_body(false, &played(), 40, 0).is_empty());
}

#[test]
fn a_panel_is_drawn() {
    let card = GameCard::from_polling(0, game("BEFORE"), None);
    let lines = render_panel(false, &card, Competition::Kbo, 1, 30, 18, "12:00:00");
    let row = |text: &str, blanks: usize| format!("│ {}{} │", text, " ".repeat(blanks));
    let expected = vec![
        "┌─ KBO · 경기전 18:30 ───────┐".to_string(),
        row("   L G        0", 11),
        row("   두산       0", 11),
        row("", 26),
        row("       ◇", 18),
        row("     ╱   ╲       B  ○○○", 3),
        row("   ◇       ◇     S  ○○", 4),
        row("     ╲   ╱       O  ○○", 4),
        row("       ⌂", 18),
        row("", 26),
        row("  타자  -", 17),
        row("  투수  -", 17),
        row("", 26),
        row("  회", 22),
        "├────────────────────────────┤".to_string(),
        row("q:종료  r:새로고침 · 12:0…", 0),
        "└────────────────────────────┘".to_string(),
        format!("[1/1] LG vs 두산{}", " ".repeat(14)),
    ];
    assert_eq!(lines, expected);
}

#[test]
fn a_panel_has_its_height() {
    for height in 0..30 {
        let lines = render_panel(true, &played(), Competition::Kbo, 5, 58, height, "12:00:00");
        assert_eq!(lines.len(), height);
    }
}

#[test]
fn a_panel_has_its_width() {
    for width in 16..80 {
        for styled in [false, true] {
            let lines =
                render_panel(styled, &played(), Competition::AsianGames, 5, width, 24, "12:00:00");
            for line in lines {
                assert_eq!(visual_width(&line), width);
            }
        }
    }
}

#[test]
fn competitions_share_a_panel() {
    let draw = |competition: Competition| {
        render_panel(true, &played(), competition, 5, 58, 24, "12:00:00")
    };
    let (kbo, games) = (draw(Competition::Kbo), draw(Competition::AsianGames));
    assert_ne!(kbo[0], games[0]);
    assert_eq!(kbo[1..], games[1..]);
}

#[test]
fn long_texts_keep_to_a_panel() {
    let mut card = played();
    card.game.away_team_name = "차이니스 타이베이 ".repeat(9);
    card.latest_events[0].text = "좌익수 뒤 홈런 (홈런거리:120M) ".repeat(20);
    for width in 5..70 {
        let lines = render_panel(true, &card, Competition::Kbo, 120, width, 24, "12:00:00");
        for line in lines {
            assert_eq!(visual_width(&line), width);
        }
    }
}
