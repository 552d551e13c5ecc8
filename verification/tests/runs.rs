use kbo_cli::cli::{plan_run, Command, LiveArgs, DEFAULT_INTERVAL, NO_INTERVAL};
use kbo_cli::clock::{kst_now, today_kst, FIRST_SECOND, LAST_SECOND};
use kbo_cli::competition::Competition;
use kbo_cli::live::{
    key_action, live_step, wait_step, Key, LiveAction, LiveEvent, LiveStep, WaitEvent, WaitStep,
    POLL_NANOS,
};

#[test]
fn korea_is_nine_hours_ahead() {
    assert_eq!(kst_now(0), "09:00:00");
    assert_eq!(kst_now(53999), "23:59:59");
    assert_eq!(kst_now(54000), "00:00:00");
    assert_eq!(kst_now(-1), "08:59:59");
    assert_eq!(kst_now(1783436399), "23:59:59");
}

#[test]
fn a_day_has_a_date() {
    assert_eq!(today_kst(0), "1970-01-01");
    assert_eq!(today_kst(54000), "1970-01-02");
    assert_eq!(today_kst(1783436399), "2026-07-07");
    assert_eq!(today_kst(1783436400), "2026-07-08");
    assert_eq!(today_kst(1709132400), "2024-02-29");
    assert_eq!(today_kst(-2203923600), "1900-03-01");
    assert_eq!(today_kst(253402268399), "9999-12-31");
    assert_eq!(today_kst(253402268400), "+10000-01-01");
}

#[test]
fn the_calendar_has_ends() {
    assert_eq!(today_kst(FIRST_SECOND), "-262143-01-01");
    assert_eq!(kst_now(FIRST_SECOND), "09:00:00");
    assert_eq!(today_kst(LAST_SECOND - 32400), "+262142-12-31");
    assert_eq!(kst_now(LAST_SECOND - 32400), "23:59:59");
}

#[test]
fn days_follow_one_another() {
    let days: Vec<String> = (0..800).map(|day| today_kst(1672531200 + 86400 * day)).collect();
    assert_eq!(days[0], "2023-01-01");
    assert_eq!(days[424], "2024-02-29");
    assert_eq!(days[731], "2025-01-01");
    for i in 0..days.len() {
        assert!(!days[..i].contains(&days[i]));
    }
}

#[test]
fn keys_have_actions() {
    for control in [false, true] {
        assert_eq!(key_action(Key::Char('q'), control), Some(LiveAction::Quit));
        assert_eq!(key_action(Key::Escape, control), Some(LiveAction::Quit));
        assert_eq!(key_action(Key::Char('r'), control), Some(LiveAction::Refresh));
        assert_eq!(key_action(Key::Char('Q'), control), None);
        assert_eq!(key_action(Key::Other, control), None);
    }
    assert_eq!(key_action(Key::Char('c'), true), Some(LiveAction::Quit));
    assert_eq!(key_action(Key::Char('c'), false), None);
}

#[test]
fn a_wait_without_keys_is_slept() {
    assert_eq!(wait_step(false, WaitEvent::Begun, 0, 5), WaitStep::Sleep);
    assert_eq!(wait_step(false, WaitEvent::Slept, 5, 5), WaitStep::End(LiveAction::Tick));
}

#[test]
fn a_wait_for_keys_looks_at_the_clock() {
    let second = 1000000000;
    let begun = WaitEvent::Begun;
    assert_eq!(wait_step(true, begun, 0, second), WaitStep::Poll(150000000));
    assert_eq!(wait_step(true, begun, second - 1, second), WaitStep::Poll(1));
    assert_eq!(wait_step(true, begun, second, second), WaitStep::End(LiveAction::Tick));
    assert_eq!(wait_step(true, WaitEvent::Quiet, 900000000, second), WaitStep::Poll(100000000));
    let other = WaitEvent::Pressed(Key::Char('x'), false);
    assert_eq!(wait_step(true, other, 0, second), WaitStep::Poll(POLL_NANOS));
    assert_eq!(wait_step(true, other, second + 1, second), WaitStep::End(LiveAction::Tick));
}

#[test]
fn keys_quit_and_refresh() {
    for (key, step) in [('q', LiveStep::Stop), ('r', LiveStep::Fetch)] {
        for waited in [0, 10, 11] {
            let event = WaitEvent::Pressed(Key::Char(key), false);
            match wait_step(true, event, waited, 10) {
                WaitStep::End(action) => {
                    assert_eq!(live_step(LiveEvent::Waited(action), false), step)
                }
                other => panic!("{other:?}"),
            }
        }
    }
}

#[test]
fn polls_stay_in_the_interval() {
    let interval = 1000000007;
    let mut waited: u128 = 0;
    let mut polls = 0;
    while let WaitStep::Poll(nanos) = wait_step(true, WaitEvent::Quiet, waited, interval) {
        assert!(nanos > 0 && nanos <= POLL_NANOS);
        waited += nanos;
        polls += 1;
    }
    assert_eq!((waited, polls), (interval, 7));
}

#[test]
fn a_run_goes_round() {
    for once in [false, true] {
        assert_eq!(live_step(LiveEvent::Begun, once), LiveStep::Fetch);
        assert_eq!(live_step(LiveEvent::Fetched, once), LiveStep::Draw);
        assert_eq!(live_step(LiveEvent::Waited(LiveAction::Tick), once), LiveStep::Fetch);
        assert_eq!(live_step(LiveEvent::Waited(LiveAction::Refresh), once), LiveStep::Fetch);
        assert_eq!(live_step(LiveEvent::Waited(LiveAction::Quit), once), LiveStep::Stop);
        assert_eq!(live_step(LiveEvent::Failed, once), LiveStep::Fail);
    }
    assert_eq!(live_step(LiveEvent::Drawn, false), LiveStep::Wait);
    assert_eq!(live_step(LiveEvent::Drawn, true), LiveStep::Stop);
}

fn args(date: Option<&str>, interval: u64, once: bool) -> LiveArgs {
    LiveArgs { date: date.map(str::to_string), interval, once }
}

#[test]
fn a_command_is_planned() {
    let plan = plan_run(None, args(None, DEFAULT_INTERVAL, false), 1783436399).unwrap();
    assert_eq!(plan.competition, Competition::Kbo);
    assert_eq!((plan.date.as_str(), plan.interval, plan.once), ("2026-07-07", 5, false));
    let live = Command::Live(args(Some("2026-05-05"), 9, true));
    let plan = plan_run(Some(live), args(None, 0, false), 0).unwrap();
    assert_eq!(plan.competition, Competition::Kbo);
    assert_eq!((plan.date.as_str(), plan.interval, plan.once), ("2026-05-05", 9, true));
    let games = Command::AsianGames(args(None, 1, false));
    let plan = plan_run(Some(games), args(Some("2026-05-05"), 5, true), 1783436400).unwrap();
    assert_eq!(plan.competition, Competition::AsianGames);
    assert_eq!((plan.date.as_str(), plan.interval, plan.once), ("2026-07-08", 1, false));
}

#[test]
fn an_interval_has_a_second() {
    assert_eq!(NO_INTERVAL, "--interval은 1초 이상이어야 합니다");
    let refused = plan_run(None, args(None, 0, false), 0).unwrap_err();
    assert_eq!(refused, NO_INTERVAL);
    let live = Command::Live(args(None, 0, true));
    assert_eq!(plan_run(Some(live), args(None, 5, true), 0).unwrap_err(), NO_INTERVAL);
    let games = Command::AsianGames(args(Some("2026-05-05"), 0, true));
    assert!(plan_run(Some(games), args(None, 5, true), 0).is_err());
}

#[test]
fn competitions_have_names() {
    let named = |c: Competition| (c.category_id(), c.header(), c.panel_label());
    assert_eq!(named(Competition::Kbo), ("kbo", "KBO LIVE", "KBO"));
    assert_eq!(named(Competition::AsianGames), ("agbaseball", "ASIAN GAMES BASEBALL", "AG"));
}
