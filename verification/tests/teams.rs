use kbo_cli::teams::{bright_rgb, team_badge, team_display, team_fg, team_rgb};
use kbo_cli::width::strip_ansi;

const TEAMS: [(&str, (u8, u8, u8)); 18] = [
    ("LG", (195, 4, 82)),
    ("두산", (26, 23, 72)),
    ("KIA", (234, 0, 41)),
    ("KT", (0, 0, 0)),
    ("삼성", (7, 76, 161)),
    ("한화", (252, 78, 0)),
    ("SSG", (206, 14, 45)),
    ("롯데", (4, 30, 66)),
    ("NC", (49, 82, 136)),
    ("키움", (87, 5, 20)),
    ("대한민국", (0, 71, 160)),
    ("일본", (188, 0, 45)),
    ("중국", (222, 41, 16)),
    ("차이니스 타이베이", (0, 51, 160)),
    ("홍콩", (222, 41, 16)),
    ("태국", (36, 29, 112)),
    ("필리핀", (0, 56, 168)),
    ("팔레스타인", (0, 122, 61)),
];

#[test]
fn teams_have_colors() {
    for (team, color) in TEAMS {
        assert_eq!(team_rgb(team), Some(color));
    }
    assert_eq!(team_rgb("lg"), None);
    assert_eq!(team_rgb(""), None);
}

#[test]
fn two_letters_are_spread() {
    assert_eq!(team_display("KT"), "K T");
    assert_eq!(team_display("LG"), "L G");
    assert_eq!(team_display("NC"), "N C");
    assert_eq!(team_display("KIA"), "KIA");
}

fn in_single_precision((r, g, b): (u8, u8, u8)) -> (u8, u8, u8) {
    let max = r.max(g).max(b);
    let factor = 150.0 / f32::from(max);
    (
        (f32::from(r) * factor).round().min(255.0) as u8,
        (f32::from(g) * factor).round().min(255.0) as u8,
        (f32::from(b) * factor).round().min(255.0) as u8,
    )
}

#[test]
fn dark_colors_are_scaled_in_single_precision() {
    for max in 1..150u8 {
        for part in 0..=max {
            let color = (max, part, 0);
            assert_eq!(bright_rgb(color), in_single_precision(color), "{part} of {max}");
            let color = (part, 0, max);
            assert_eq!(bright_rgb(color), in_single_precision(color));
        }
    }
    assert_eq!(bright_rgb((15, 36, 27)), (62, 150, 112));
}

#[test]
fn bright_colors_stay() {
    assert_eq!(bright_rgb((0, 0, 0)), (160, 160, 160));
    assert_eq!(bright_rgb((150, 3, 2)), (150, 3, 2));
    assert_eq!(bright_rgb((26, 23, 72)), (54, 48, 150));
    for (_, color) in TEAMS {
        let bright = bright_rgb(color);
        assert_eq!(bright_rgb(bright), bright);
    }
}

#[test]
fn badges_show_names() {
    assert_eq!(team_badge(false, "LG"), " L G ");
    assert_eq!(team_badge(false, "호주"), " 호주 ");
    assert_eq!(team_badge(true, "호주"), "\x1b[1m 호주 \x1b[0m");
    assert_eq!(
        team_badge(true, "KIA"),
        "\x1b[1m\x1b[48;2;234;0;41m\x1b[38;2;255;255;255m KIA \x1b[49m\x1b[39m\x1b[22m"
    );
    for (team, _) in TEAMS {
        assert_eq!(strip_ansi(&team_badge(true, team)), team_badge(false, team));
    }
}

#[test]
fn names_take_team_colors() {
    assert_eq!(team_fg(false, "KT", "3"), "3");
    assert_eq!(team_fg(true, "KT", "3"), "\x1b[38;2;160;160;160m3\x1b[39m");
    assert_eq!(team_fg(true, "두산", "3"), "\x1b[38;2;54;48;150m3\x1b[39m");
    assert_eq!(team_fg(true, "호주", "3"), "\x1b[1m3\x1b[0m");
    for (team, _) in TEAMS {
        assert_eq!(strip_ansi(&team_fg(true, team, team)), team);
    }
}
