//! The command line: which board is asked for.
use vstd::prelude::*;

use crate::clock::{today_kst, KST_OFFSET};
use crate::competition::Competition;
#[allow(unused_imports)]
use crate::clock::{has_date, is_date_of};

verus! {

/// The seconds between two boards where none are given.
pub const DEFAULT_INTERVAL: u64 = 5;

/// What is refused of an interval without a second.
pub const NO_INTERVAL: &'static str = "--interval은 1초 이상이어야 합니다";

/// The arguments of a command. Without a date, the board is today's.
#[derive(Debug)]
pub struct LiveArgs {
    pub date: Option<String>,
    pub interval: u64,
    pub once: bool,
}

/// A command.
#[derive(Debug)]
pub enum Command {
    Live(LiveArgs),
    AsianGames(LiveArgs),
}

/// The competition and the arguments that are asked for: those of the command, or else
/// the league's board with the arguments that stand without a command.
pub open spec fn asked_for(command: Option<Command>, args: LiveArgs) -> (Competition, LiveArgs) {
    match command {
        Some(Command::Live(own)) => (Competition::Kbo, own),
        Some(Command::AsianGames(own)) => (Competition::AsianGames, own),
        None => (Competition::Kbo, args),
    }
}

/// Without a command, the arguments are those of `live`.
pub proof fn law_live_is_default(args: LiveArgs, other: LiveArgs)
    ensures
        asked_for(None, args) == asked_for(Some(Command::Live(args)), other),
{
}

/// A run of the board.
#[derive(Debug)]
pub struct RunPlan {
    pub competition: Competition,
    pub date: String,
    pub interval: u64,
    pub once: bool,
}

/// Plans the run that a command line asks for, at a second counted from the start of
/// 1970 in UTC.
pub fn plan_run(command: Option<Command>, args: LiveArgs, utc_seconds: i64) -> (plan: Result<
    RunPlan,
    String,
>)
    requires
        asked_for(command, args).1.interval != 0 && asked_for(command, args).1.date is None
            ==> has_date(utc_seconds as int, KST_OFFSET as int),
    ensures
        ({
            let (competition, own) = asked_for(command, args);
            match plan {
                Ok(plan) => {
                    &&& own.interval != 0
                    &&& plan.competition == competition
                    &&& plan.interval == own.interval
                    &&& plan.once == own.once
                    &&& match own.date {
                        Some(date) => plan.date == date,
                        None => is_date_of(plan.date@, (utc_seconds + 32400) / 86400),
                    }
                },
                Err(message) => own.interval == 0 && message@ == NO_INTERVAL@,
            }
        }),
{
    let (competition, own) = match command {
        Some(Command::Live(own)) => (Competition::Kbo, own),
        Some(Command::AsianGames(own)) => (Competition::AsianGames, own),
        None => (Competition::Kbo, args),
    };
    if own.interval == 0 {
        return Err(NO_INTERVAL.to_owned());
    }
    let date = match own.date {
        Some(date) => date,
        None => today_kst(utc_seconds),
    };
    Ok(RunPlan { competition, date, interval: own.interval, once: own.once })
}

/// A command has its own competition and its own arguments, whatever stands before it.
pub proof fn law_commands_take_their_own(own: LiveArgs, other: LiveArgs)
    ensures
        asked_for(Some(Command::Live(own)), other) == (Competition::Kbo, own),
        asked_for(Some(Command::AsianGames(own)), other) == (Competition::AsianGames, own),
        asked_for(None, other) == (Competition::Kbo, other),
{
}

} // verus!
