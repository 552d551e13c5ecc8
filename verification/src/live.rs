//! The course of a run: fetch, draw, wait, and again until the user quits.
use vstd::prelude::*;

verus! {

/// What ends a wait.
#[derive(Clone, Copy, Debug, PartialEq, Eq, Structural)]
pub enum LiveAction {
    /// The interval is over.
    Tick,
    /// The user asks for a refresh.
    Refresh,
    /// The user quits.
    Quit,
}

/// A key of the keyboard.
#[derive(Clone, Copy, Debug, PartialEq, Eq, Structural)]
pub enum Key {
    Char(char),
    Escape,
    Other,
}

/// What a key asks for, pressed together with the control key or not.
pub open spec fn action_of(key: Key, control: bool) -> Option<LiveAction> {
    if key == Key::Char('q') || key == Key::Escape || (key == Key::Char('c') && control) {
        Some(LiveAction::Quit)
    } else if key == Key::Char('r') {
        Some(LiveAction::Refresh)
    } else {
        None
    }
}

/// What a key asks for, pressed together with the control key or not.
pub fn key_action(key: Key, control: bool) -> (action: Option<LiveAction>)
    ensures
        action == action_of(key, control),
{
    match key {
        Key::Char(c) => if c == 'q' || (c == 'c' && control) {
            Some(LiveAction::Quit)
        } else if c == 'r' {
            Some(LiveAction::Refresh)
        } else {
            None
        },
        Key::Escape => Some(LiveAction::Quit),
        Key::Other => None,
    }
}

/// The nanoseconds after which a wait for keys looks at the clock again.
pub const POLL_NANOS: u128 = 150000000;

/// What happened last in a wait.
#[derive(Clone, Copy, Debug, PartialEq, Eq, Structural)]
pub enum WaitEvent {
    /// The wait begins.
    Begun,
    /// The interval was slept through.
    Slept,
    /// No key was pressed.
    Quiet,
    /// A key was pressed, together with the control key or not.
    Pressed(Key, bool),
}

/// What to do next in a wait.
#[derive(Clone, Copy, Debug, PartialEq, Eq, Structural)]
pub enum WaitStep {
    /// Sleep through the interval.
    Sleep,
    /// Wait for a key, for so many nanoseconds at most.
    Poll(u128),
    /// End the wait.
    End(LiveAction),
}

/// What to do next in a wait of `interval` nanoseconds, of which `waited` are over.
/// Keys are read on a terminal only.
pub open spec fn next_wait(
    interactive: bool,
    event: WaitEvent,
    waited: u128,
    interval: u128,
) -> WaitStep {
    let action = match event {
        WaitEvent::Pressed(key, control) => action_of(key, control),
        WaitEvent::Slept => Some(LiveAction::Tick),
        _ => None,
    };
    if action is Some {
        WaitStep::End(action->0)
    } else if !interactive {
        WaitStep::Sleep
    } else if waited >= interval {
        WaitStep::End(LiveAction::Tick)
    } else if interval - waited < POLL_NANOS {
        WaitStep::Poll((interval - waited) as u128)
    } else {
        WaitStep::Poll(POLL_NANOS)
    }
}

/// Decides what to do next in a wait.
pub fn wait_step(interactive: bool, event: WaitEvent, waited: u128, interval: u128) -> (step:
    WaitStep)
    ensures
        step == next_wait(interactive, event, waited, interval),
{
    let action = match event {
        WaitEvent::Pressed(key, control) => key_action(key, control),
        WaitEvent::Slept => Some(LiveAction::Tick),
        _ => None,
    };
    if let Some(action) = action {
        return WaitStep::End(action);
    }
    if !interactive {
        return WaitStep::Sleep;
    }
    if waited >= interval {
        return WaitStep::End(LiveAction::Tick);
    }
    if interval - waited < POLL_NANOS {
        WaitStep::Poll(interval - waited)
    } else {
        WaitStep::Poll(POLL_NANOS)
    }
}

/// A wait for keys never goes on beyond the interval, nor for long without a look at the
/// clock, nor for no time at all.
pub proof fn law_polls_end_in_time(
    interactive: bool,
    event: WaitEvent,
    waited: u128,
    interval: u128,
)
    ensures
        next_wait(interactive, event, waited, interval) matches WaitStep::Poll(nanos) ==> 0 < nanos
            <= POLL_NANOS && waited + nanos <= interval,
{
}

/// What happened last in a run.
#[derive(Clone, Copy, Debug, PartialEq, Eq, Structural)]
pub enum LiveEvent {
    /// The run begins.
    Begun,
    /// The games were fetched.
    Fetched,
    /// The board was drawn.
    Drawn,
    /// A wait ended.
    Waited(LiveAction),
    /// The schedule could not be fetched, the board not be drawn or a key not be read.
    Failed,
}

/// What to do next in a run.
#[derive(Clone, Copy, Debug, PartialEq, Eq, Structural)]
pub enum LiveStep {
    Fetch,
    Draw,
    Wait,
    /// End the run.
    Stop,
    /// End the run with the failure.
    Fail,
}

/// What to do next in a run, which may be for a single board.
pub open spec fn next_live(event: LiveEvent, once: bool) -> LiveStep {
    match event {
        LiveEvent::Begun => LiveStep::Fetch,
        LiveEvent::Fetched => LiveStep::Draw,
        LiveEvent::Drawn => if once {
            LiveStep::Stop
        } else {
            LiveStep::Wait
        },
        LiveEvent::Waited(action) => if action == LiveAction::Quit {
            LiveStep::Stop
        } else {
            LiveStep::Fetch
        },
        LiveEvent::Failed => LiveStep::Fail,
    }
}

/// Decides what to do next in a run.
pub fn live_step(event: LiveEvent, once: bool) -> (step: LiveStep)
    ensures
        step == next_live(event, once),
{
    match event {
        LiveEvent::Begun => LiveStep::Fetch,
        LiveEvent::Fetched => LiveStep::Draw,
        LiveEvent::Drawn => if once {
            LiveStep::Stop
        } else {
            LiveStep::Wait
        },
        LiveEvent::Waited(action) => match action {
            LiveAction::Quit => LiveStep::Stop,
            LiveAction::Tick => LiveStep::Fetch,
            LiveAction::Refresh => LiveStep::Fetch,
        },
        LiveEvent::Failed => LiveStep::Fail,
    }
}

/// Whether `event` can come of a step: what the step is for, or a failure of it.
pub open spec fn comes_of(step: LiveStep, event: LiveEvent) -> bool {
    match step {
        LiveStep::Fetch => event == LiveEvent::Fetched || event == LiveEvent::Failed,
        LiveStep::Draw => event == LiveEvent::Drawn || event == LiveEvent::Failed,
        LiveStep::Wait => event is Waited || event == LiveEvent::Failed,
        LiveStep::Stop => false,
        LiveStep::Fail => false,
    }
}

/// Whether `events` are what happens in a run, up to its end or earlier.
pub open spec fn is_run(events: Seq<LiveEvent>, once: bool) -> bool {
    &&& events.len() > 0
    &&& events[0] == LiveEvent::Begun
    &&& forall|i: int|
        0 < i < events.len() ==> comes_of(next_live(events[i - 1], once), #[trigger] events[i])
}

/// A run goes in rounds: a fetch, a board and a wait. A failure is the last of its events,
/// and so is a wait that ends with quitting; every other wait is followed by a fetch.
pub proof fn law_run_goes_in_rounds(events: Seq<LiveEvent>, i: int)
    requires
        is_run(events, false),
        0 <= i < events.len(),
    ensures
        events[i] == LiveEvent::Failed ==> i == events.len() - 1 && next_live(events[i], false)
            == LiveStep::Fail,
        events[i] != LiveEvent::Failed ==> {
            &&& i % 3 == 0 ==> if i == 0 {
                events[i] == LiveEvent::Begun
            } else {
                events[i] is Waited
            }
            &&& i % 3 == 1 ==> events[i] == LiveEvent::Fetched
            &&& i % 3 == 2 ==> events[i] == LiveEvent::Drawn
        },
        events[i] == LiveEvent::Waited(LiveAction::Quit) ==> i == events.len() - 1 && next_live(
            events[i],
            false,
        ) == LiveStep::Stop,
        events[i] is Waited && events[i] != LiveEvent::Waited(LiveAction::Quit) ==> next_live(
            events[i],
            false,
        ) == LiveStep::Fetch,
    decreases i,
{
    if i > 0 {
        law_run_goes_in_rounds(events, i - 1);
        assert(comes_of(next_live(events[i - 1], false), events[i]));
    }
    if i + 1 < events.len() {
        assert(comes_of(next_live(events[i], false), events[i + 1]));
    }
}

/// A run for a single board fetches once, draws once and ends.
pub proof fn law_single_run_ends(events: Seq<LiveEvent>)
    requires
        is_run(events, true),
    ensures
        events.len() <= 3,
        events.len() == 3 ==> events[1] == LiveEvent::Fetched,
        events.len() == 3 && events[2] != LiveEvent::Failed ==> events[2] == LiveEvent::Drawn
            && next_live(events[2], true) == LiveStep::Stop,
{
    if events.len() > 1 {
        assert(comes_of(next_live(events[0], true), events[1]));
    }
    if events.len() > 2 {
        assert(comes_of(next_live(events[1], true), events[2]));
    }
    if events.len() > 3 {
        assert(comes_of(next_live(events[2], true), events[3]));
    }
}

/// Whenever they are pressed, `q` ends a run and `r` has the games fetched at once.
pub proof fn law_keys_quit_and_refresh(
    interactive: bool,
    control: bool,
    waited: u128,
    interval: u128,
    once: bool,
)
    ensures
        next_wait(interactive, WaitEvent::Pressed(Key::Char('q'), control), waited, interval)
            matches WaitStep::End(action) && next_live(LiveEvent::Waited(action), once)
            == LiveStep::Stop,
        next_wait(interactive, WaitEvent::Pressed(Key::Char('r'), control), waited, interval)
            matches WaitStep::End(action) && next_live(LiveEvent::Waited(action), once)
            == LiveStep::Fetch,
{
}

/// No other key than `q`, `r`, escape and `c` with the control key does anything.
pub proof fn law_other_keys_do_nothing(key: Key, control: bool)
    ensures
        action_of(Key::Escape, control) == Some(LiveAction::Quit),
        action_of(Key::Char('c'), true) == Some(LiveAction::Quit),
        action_of(Key::Char('c'), false) is None,
        key != Key::Escape && key != Key::Char('q') && key != Key::Char('r') && key != Key::Char(
            'c',
        ) ==> action_of(key, control) is None,
{
}

/// A wait ends as soon as the interval is over, and not before, unless a key ends it. Without
/// a terminal it is slept through. With one, the next look at the clock is due when the
/// interval ends, but after a hundred and fifty milliseconds at the latest.
pub proof fn law_waits_last_the_interval(event: WaitEvent, waited: u128, interval: u128)
    requires
        event matches WaitEvent::Pressed(key, control) ==> action_of(key, control) is None,
    ensures
        next_wait(true, WaitEvent::Slept, waited, interval) == WaitStep::End(LiveAction::Tick),
        next_wait(false, WaitEvent::Slept, waited, interval) == WaitStep::End(LiveAction::Tick),
        event != WaitEvent::Slept ==> next_wait(false, event, waited, interval) == WaitStep::Sleep,
        event != WaitEvent::Slept && waited >= interval ==> next_wait(true, event, waited, interval)
            == WaitStep::End(LiveAction::Tick),
        event != WaitEvent::Slept && waited < interval ==> (next_wait(
            true,
            event,
            waited,
            interval,
        ) matches WaitStep::Poll(nanos) && (waited + nanos == interval || nanos == 150000000)),
{
}

/// A key that does something ends a wait with what it asks for, however long it has lasted.
pub proof fn law_keys_end_waits(
    key: Key,
    control: bool,
    interactive: bool,
    waited: u128,
    interval: u128,
)
    ensures
        action_of(key, control) matches Some(action) ==> next_wait(
            interactive,
            WaitEvent::Pressed(key, control),
            waited,
            interval,
        ) == WaitStep::End(action),
{
}

} // verus!
