use kbo_cli::board::{append_grid_row, layout, render, screen_text, terminal_size, Layout};
use kbo_cli::card::GameCard;
use kbo_cli::competition::Competition;
use kbo_cli::naver::Game;
use kbo_cli::width::visual_width;

fn card(index: usize) -> GameCard {
    let game = Game {
        game_id: index.to_string(),
        game_date_time: None,
        home_team_name: "두산".to_string(),
        away_team_name: "LG".to_string(),
        home_team_score: Some(3),
        away_team_score: Some(2),
        status_code: Some("RESULT".to_string()),
        status_info: None,
        cancel: None,
        suspended: None,
        home_starter_name: None,
        away_starter_name: None,
        home_current_pitcher_name: None,
        away_current_pitcher_name: None,
        current_inning: None,
        home_team_score_by_inning: vec![],
        away_team_score_by_inning: vec![],
    };
    GameCard::from_polling(index, game, None)
}

fn clock(count: usize) -> Vec<String> {
    (0..count).map(|i| format!("12:00:0{i}")).collect()
}

#[test]
fn a_terminal_has_a_size() {
    let text = |text: &str| Some(text.to_string());
    assert_eq!(terminal_size(Some((80, 24)), &text("1"), &text("1")), (80, 24));
    assert_eq!(terminal_size(None, &text("120"), &text("x")), (120, 50));
    assert_eq!(terminal_size(None, &text(" 120"), &text("+40")), (180, 40));
    assert_eq!(terminal_size(None, &None, &None), (180, 50));
}

#[test]
fn a_board_has_measures() {
    let measures = |width: usize, cell_width: usize, panel_height: usize| Layout {
        width,
        cell_width,
        panel_height,
    };
    assert_eq!(layout(180, 50), measures(179, 58, 24));
    assert_eq!(layout(0, 0), measures(1, 1, 18));
    assert_eq!(layout(7, 39), measures(6, 1, 18));
    assert_eq!(layout(11, 40), measures(10, 2, 19));
    assert_eq!(layout(200, 54), measures(199, 65, 26));
    assert_eq!(layout(200, 9999), measures(199, 65, 26));
}

#[test]
fn three_panels_fit_beside_one_another() {
    for terminal in 8..400 {
        let board = layout(terminal, 50);
        assert!(3 * board.cell_width + 4 <= board.width);
    }
}

#[test]
fn a_row_of_the_grid_is_added() {
    let panels = vec![
        vec!["ab".to_string()],
        vec!["cd".to_string(), "ef".to_string()],
        vec!["gh".to_string(), "ij".to_string(), "kl".to_string()],
    ];
    let mut out = "title\n".to_string();
    append_grid_row(&mut out, &panels, 0, 2, 2, 2);
    assert_eq!(out, "title\nab  cd    \n  ef    \n");
    let mut out = String::new();
    append_grid_row(&mut out, &panels, 1, 3, 2, 3);
    assert_eq!(out, "cd  gh    \nef  ij    \n  kl    \n");
    let mut out = String::new();
    append_grid_row(&mut out, &panels, usize::MAX, 3, 1, 1);
    assert_eq!(out, "       \n");
}

#[test]
fn a_board_may_be_empty() {
    let title = "KBO LIVE · 2026-07-07 · 12:00:00 KST · refresh 5s · q:종료 r:새로고침";
    let blanks = " ".repeat(179 - title.chars().count() - 6);
    let board = format!("{title}{blanks}\n오늘 KBO 경기가 없습니다.\n");
    let kbo = Competition::Kbo;
    let draw = |is_terminal: bool| {
        render(
            false,
            is_terminal,
            kbo,
            "2026-07-07",
            5,
            &vec![],
            (180, 50),
            "12:00:00",
            &vec![],
        )
    };
    assert_eq!(draw(true), board);
    assert_eq!(draw(false), format!("\x1b[2J\x1b[H{board}"));
    let games = render(
        true,
        true,
        Competition::AsianGames,
        "2026-09-20",
        60,
        &vec![],
        (180, 50),
        "01:02:03",
        &vec![],
    );
    assert!(games.starts_with(
        "\x1b[1mASIAN GAMES BASEBALL\x1b[0m \x1b[2m· 2026-09-20 · 01:02:03 KST · refresh 60s · "
    ));
    assert!(games.ends_with("\n오늘 아시안게임 야구 경기가 없습니다.\n"));
}

#[test]
fn a_board_shows_three_above_two() {
    let cards: Vec<GameCard> = (0..5).map(card).collect();
    let kbo = Competition::Kbo;
    let board =
        render(false, true, kbo, "2026-07-07", 5, &cards, (120, 42), "12:00:00", &clock(5));
    let lines: Vec<&str> = board.lines().collect();
    assert_eq!(lines.len(), 1 + 20 + 1 + 20);
    assert_eq!(visual_width(lines[0]), 119);
    for line in lines[1..21].iter().chain(lines[22..].iter()) {
        assert_eq!(visual_width(line), 3 * 38 + 4);
    }
    assert_eq!(lines[21], "");
    let caption = |n: usize| format!("[{n}/5] LG vs 두산{}", " ".repeat(22));
    assert_eq!(lines[20], format!("{}  {}  {}", caption(1), caption(2), caption(3)));
    assert_eq!(lines[41], format!("{}  {}  {}", caption(4), caption(5), " ".repeat(38)));
    assert!(lines[18].contains("12:00:00") && lines[18].contains("12:00:02"));
    assert!(lines[39].contains("12:00:03") && lines[39].contains("12:00:04"));
}

#[test]
fn a_board_shows_every_game() {
    for count in 1..15 {
        let cards: Vec<GameCard> = (0..count).map(card).collect();
        let clock: Vec<String> = (0..count).map(|i| format!("12:00:{i:02}")).collect();
        let games = Competition::AsianGames;
        let board =
            render(false, true, games, "2026-09-20", 5, &cards, (120, 42), "11:00:00", &clock);
        let lines: Vec<&str> = board.lines().collect();
        let rows = if count <= 5 { 2 } else { 2 + (count - 5 + 2) / 3 };
        assert_eq!(lines.len(), 1 + rows * 21 - 1);
        for i in 0..count {
            let (row, col) = match i {
                0..=2 => (0, i),
                3..=4 => (1, i - 3),
                _ => (2 + (i - 5) / 3, (i - 5) % 3),
            };
            let caption = lines[1 + row * 21 + 19];
            let place: String =
                caption.split("  ").filter(|part| !part.trim().is_empty()).nth(col).unwrap().into();
            assert_eq!(place.trim(), format!("[{}/{count}] LG vs 두산", i + 1));
            assert!(lines[1 + row * 21 + 17].contains(&clock[i]));
        }
    }
}

#[test]
fn six_games_take_three_rows() {
    let cards: Vec<GameCard> = (0..6).map(card).collect();
    let kbo = Competition::Kbo;
    let board =
        render(false, true, kbo, "2026-07-07", 5, &cards, (120, 42), "12:00:00", &clock(6));
    let lines: Vec<&str> = board.lines().collect();
    assert_eq!(lines.len(), 63);
    assert_eq!(lines[42], "");
    assert_eq!(lines[62], format!("[6/6] LG vs 두산{}", " ".repeat(22 + 2 * 40)));
    assert!(lines[43].starts_with("┌─ KBO · 종료 "));
}

#[test]
fn a_terminal_needs_returns() {
    assert_eq!(screen_text(true, "a\nb\n\n".to_string()), "a\r\nb\r\n\r\n");
    assert_eq!(screen_text(true, "a\r\n".to_string()), "a\r\r\n");
    assert_eq!(screen_text(false, "a\nb\n".to_string()), "a\nb\n");
}
