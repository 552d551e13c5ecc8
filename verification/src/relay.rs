//! The text relay of a game: its events in order, and the last state it tells.
use vstd::prelude::*;

use crate::naver::{GameState, TextOption, TextRelayData, TextRelayGroup};
use crate::text::{chars_of, trim};
#[allow(unused_imports)]
use crate::text::trimmed;

verus! {

/// An event of the relay: its number, its text and the state of the game behind it.
pub struct Relayed {
    pub number: int,
    pub text: Seq<char>,
    pub state: Option<GameState>,
}

/// An event of the relay.
#[derive(Debug)]
pub struct RelayEvent {
    pub seqno: u64,
    pub text: String,
    pub state: Option<GameState>,
}

impl View for RelayEvent {
    type V = Relayed;

    open spec fn view(&self) -> Relayed {
        Relayed { number: self.seqno as int, text: self.text@, state: self.state }
    }
}

/// What `events` tell.
pub open spec fn told(events: Seq<RelayEvent>) -> Seq<Relayed> {
    events.map_values(|event: RelayEvent| event@)
}

/// Whether `text` is a rule between two parts of the relay, or nothing at all.
pub open spec fn is_rule(text: Seq<char>) -> bool {
    forall|i: int|
        0 <= i < text.len() ==> (#[trigger] text[i] == '=' || text[i] == '-' || text[i] == ' ')
}

/// The text of a relayed option, where it has one.
pub open spec fn relayed_text(option: TextOption) -> Option<Seq<char>> {
    match option.text {
        Some(text) => if is_rule(trimmed(text@)) {
            None
        } else {
            Some(trimmed(text@))
        },
        None => None,
    }
}

/// The number of the option at `index` of a group: its own, or one that follows from
/// the number of the group, or its place in the group.
pub open spec fn relayed_number(group: TextRelayGroup, index: int) -> int {
    match group.text_options@[index].seqno {
        Some(number) => number as int,
        None => match group.no {
            Some(no) => (if no * 1000 <= u64::MAX {
                no * 1000
            } else {
                u64::MAX as int
            }) + index,
            None => index,
        },
    }
}

/// The events of the first `count` options of a group.
pub open spec fn group_events(group: TextRelayGroup, count: nat) -> Seq<Relayed>
    decreases count,
{
    if count == 0 {
        Seq::empty()
    } else {
        let option = group.text_options@[count - 1];
        let before = group_events(group, (count - 1) as nat);
        match relayed_text(option) {
            Some(text) => before.push(
                (Relayed {
                    number: relayed_number(group, count - 1),
                    text,
                    state: option.current_game_state,
                }),
            ),
            None => before,
        }
    }
}

/// The events of `groups` as they were relayed.
pub open spec fn relayed(groups: Seq<TextRelayGroup>) -> Seq<Relayed>
    decreases groups.len(),
{
    if groups.len() == 0 {
        Seq::empty()
    } else {
        relayed(groups.drop_last()) + group_events(
            groups.last(),
            groups.last().text_options@.len(),
        )
    }
}

/// Whether the numbers of a group's events fit in 64 bits.
pub open spec fn group_fits(group: TextRelayGroup) -> bool {
    forall|i: int|
        0 <= i < group.text_options@.len() && relayed_text(#[trigger] group.text_options@[i])
            is Some ==> relayed_number(group, i) <= u64::MAX
}

/// Whether the numbers of all events fit in 64 bits.
pub open spec fn numbers_fit(groups: Seq<TextRelayGroup>) -> bool {
    forall|i: int| 0 <= i < groups.len() ==> group_fits(#[trigger] groups[i])
}

/// Whether the number of `event` is one of the numbers in `events`.
pub open spec fn has_number(events: Seq<Relayed>, number: int) -> bool {
    exists|i: int| 0 <= i < events.len() && (#[trigger] events[i]).number == number
}

/// Whether `event` is the first of `source` with its number.
pub open spec fn is_first(source: Seq<Relayed>, event: Relayed) -> bool {
    exists|i: int|
        0 <= i < source.len() && #[trigger] source[i] == event && !has_number(
            source.take(i),
            event.number,
        )
}

/// Whether the numbers of `events` rise.
pub open spec fn rising(events: Seq<Relayed>) -> bool {
    forall|i: int, j: int|
        0 <= i < j < events.len() ==> (#[trigger] events[i]).number < (#[trigger] events[j]).number
}

/// Whether `events` are the events of `source` by rising numbers, of those with the
/// same number the first.
pub open spec fn in_order(events: Seq<Relayed>, source: Seq<Relayed>) -> bool {
    &&& rising(events)
    &&& forall|i: int| 0 <= i < events.len() ==> is_first(source, #[trigger] events[i])
    &&& forall|i: int|
        0 <= i < source.len() ==> has_number(events, (#[trigger] source[i]).number)
}

/// The events in order are determined by what was relayed.
pub proof fn law_order_is_unique(left: Seq<Relayed>, right: Seq<Relayed>, source: Seq<Relayed>)
    requires
        in_order(left, source),
        in_order(right, source),
    ensures
        left == right,
{
    lemma_same_start(left, right, source, left.len());
    lemma_same_start(right, left, source, right.len());
    assert(left =~= right);
}

/// Every number of `left` is one of `right`, where both hold the events of `source`.
proof fn lemma_number_carries(left: Seq<Relayed>, right: Seq<Relayed>, source: Seq<Relayed>, i: int)
    requires
        in_order(left, source),
        in_order(right, source),
        0 <= i < left.len(),
    ensures
        has_number(right, left[i].number),
{
    assert(is_first(source, left[i]));
    let k = choose|k: int|
        0 <= k < source.len() && #[trigger] source[k] == left[i] && !has_number(
            source.take(k),
            left[i].number,
        );
    assert(has_number(right, source[k].number));
}

/// There is one first event only of each number.
proof fn lemma_first_is_unique(source: Seq<Relayed>, one: Relayed, other: Relayed)
    requires
        is_first(source, one),
        is_first(source, other),
        one.number == other.number,
    ensures
        one == other,
{
    let i = choose|i: int|
        0 <= i < source.len() && #[trigger] source[i] == one && !has_number(
            source.take(i),
            one.number,
        );
    let j = choose|j: int|
        0 <= j < source.len() && #[trigger] source[j] == other && !has_number(
            source.take(j),
            other.number,
        );
    if i < j {
        assert(source.take(j)[i].number == other.number);
    } else if j < i {
        assert(source.take(i)[j].number == one.number);
    }
}

proof fn lemma_same_start(
    left: Seq<Relayed>,
    right: Seq<Relayed>,
    source: Seq<Relayed>,
    count: nat,
)
    requires
        in_order(left, source),
        in_order(right, source),
        count <= left.len(),
    ensures
        count <= right.len(),
        forall|i: int| 0 <= i < count ==> #[trigger] left[i] == right[i],
    decreases count,
{
    if count > 0 {
        let last = count - 1;
        lemma_same_start(left, right, source, last as nat);
        lemma_number_carries(left, right, source, last);
        let j = choose|j: int|
            0 <= j < right.len() && (#[trigger] right[j]).number == left[last].number;
        assert(j >= last) by {
            if j < last {
                assert(left[j] == right[j]);
                assert(left[j].number < left[last].number);
            }
        }
        lemma_number_carries(right, left, source, last);
        let k = choose|k: int|
            0 <= k < left.len() && (#[trigger] left[k]).number == right[last].number;
        assert(k >= last) by {
            if k < last {
                assert(left[k] == right[k]);
                assert(right[k].number < right[last].number);
            }
        }
        assert(right[last].number <= right[j].number);
        assert(left[last].number <= left[k].number);
        assert(is_first(source, left[last]));
        assert(is_first(source, right[last]));
        lemma_first_is_unique(source, left[last], right[last]);
    }
}

/// One more event relayed: it takes its place, or changes nothing where its number is
/// there already.
proof fn lemma_one_more(events: Seq<Relayed>, source: Seq<Relayed>, event: Relayed, at: int)
    requires
        in_order(events, source),
        0 <= at <= events.len(),
        forall|i: int| 0 <= i < at ==> (#[trigger] events[i]).number <= event.number,
        forall|i: int| at <= i < events.len() ==> (#[trigger] events[i]).number > event.number,
    ensures
        at > 0 && events[at - 1].number == event.number ==> in_order(events, source.push(event)),
        !(at > 0 && events[at - 1].number == event.number) ==> in_order(
            events.insert(at, event),
            source.push(event),
        ),
{
    let more = source.push(event);
    let known = at > 0 && events[at - 1].number == event.number;
    let result = if known {
        events
    } else {
        events.insert(at, event)
    };
    assert forall|e: Relayed| is_first(source, e) implies is_first(more, e) by {
        let i = choose|i: int|
            0 <= i < source.len() && #[trigger] source[i] == e && !has_number(
                source.take(i),
                e.number,
            );
        assert(more[i] == e);
        assert(more.take(i) == source.take(i));
    }
    if !known {
        assert(is_first(more, event)) by {
            assert(more[source.len() as int] == event);
            assert(more.take(source.len() as int) == source);
            if has_number(source, event.number) {
                let i = choose|i: int|
                    0 <= i < source.len() && (#[trigger] source[i]).number == event.number;
                assert(has_number(events, source[i].number));
                let j = choose|j: int|
                    0 <= j < events.len() && (#[trigger] events[j]).number == event.number;
                if j < at - 1 {
                    assert(events[j].number < events[at - 1].number);
                }
            }
        }
        assert forall|i: int, j: int| 0 <= i < j < result.len() implies (
        #[trigger] result[i]).number < (#[trigger] result[j]).number by {
            let a = if i < at {
                i
            } else {
                i - 1
            };
            let b = if j < at {
                j
            } else {
                j - 1
            };
            if i == at {
                assert(result[j] == events[b]);
            } else if j == at {
                assert(result[i] == events[a]);
                if a < at - 1 {
                    assert(events[a].number < events[at - 1].number);
                }
            } else {
                assert(result[i] == events[a]);
                assert(result[j] == events[b]);
                assert(events[a].number < events[b].number);
            }
        }
    }
    assert forall|i: int| 0 <= i < result.len() implies is_first(more, #[trigger] result[i]) by {
        if known {
            assert(is_first(source, events[i]));
        } else if i < at {
            assert(result[i] == events[i]);
            assert(is_first(source, events[i]));
        } else if i > at {
            assert(result[i] == events[i - 1]);
            assert(is_first(source, events[i - 1]));
        }
    }
    assert forall|i: int| 0 <= i < more.len() implies has_number(
        result,
        (#[trigger] more[i]).number,
    ) by {
        if i < source.len() {
            assert(has_number(events, source[i].number));
            let j = choose|j: int|
                0 <= j < events.len() && (#[trigger] events[j]).number == source[i].number;
            if known {
                assert(result[j].number == more[i].number);
            } else if j < at {
                assert(result[j].number == more[i].number);
            } else {
                assert(result[j + 1].number == more[i].number);
            }
        } else if known {
            assert(result[at - 1].number == event.number);
        } else {
            assert(result[at].number == event.number);
        }
    }
}

/// Whether a trimmed text is a rule or nothing.
fn is_rule_text(text: &str) -> (rule: bool)
    ensures
        rule == is_rule(text@),
{
    let chars = chars_of(text);
    let mut i: usize = 0;
    while i < chars.len()
        invariant
            i <= chars@.len(),
            chars@ == text@,
            forall|j: int|
                0 <= j < i ==> (#[trigger] text@[j] == '=' || text@[j] == '-' || text@[j] == ' '),
        decreases chars@.len() - i,
    {
        let c = chars[i];
        if c != '=' && c != '-' && c != ' ' {
            assert(text@[i as int] == c);
            return false;
        }
        i += 1;
    }
    true
}

/// The text of a relayed option, where it has one.
fn option_text(option: &TextOption) -> (text: Option<String>)
    ensures
        match relayed_text(*option) {
            Some(t) => text is Some && text->0@ == t,
            None => text is None,
        },
{
    match &option.text {
        Some(text) => {
            let short = trim(text);
            if is_rule_text(&short) {
                None
            } else {
                Some(short)
            }
        },
        None => None,
    }
}

/// Whether the numbers of all events of the relay fit in 64 bits.
pub fn relay_numbers_fit(data: &TextRelayData) -> (fit: bool)
    ensures
        fit == numbers_fit(data.text_relays@),
{
    let mut g: usize = 0;
    while g < data.text_relays.len()
        invariant
            g <= data.text_relays@.len(),
            forall|k: int| 0 <= k < g ==> group_fits(#[trigger] data.text_relays@[k]),
        decreases data.text_relays@.len() - g,
    {
        let group = &data.text_relays[g];
        let mut i: usize = 0;
        while i < group.text_options.len()
            invariant
                i <= group.text_options@.len(),
                g < data.text_relays@.len(),
                *group == data.text_relays@[g as int],
                forall|k: int|
                    0 <= k < i && relayed_text(#[trigger] group.text_options@[k]) is Some
                        ==> relayed_number(*group, k) <= u64::MAX,
            decreases group.text_options@.len() - i,
        {
            let option = &group.text_options[i];
            if option.seqno.is_none() && option_text(option).is_some() {
                if let Some(no) = group.no {
                    let base: u64 = if no <= u64::MAX / 1000 { no * 1000 } else { u64::MAX };
                    if u64::MAX - base < i as u64 {
                        assert(relayed_text(group.text_options@[i as int]) is Some);
                        return false;
                    }
                }
            }
            i += 1;
        }
        g += 1;
    }
    true
}

/// Puts `event` in its place, unless its number is there already.
fn add_event(events: &mut Vec<RelayEvent>, event: RelayEvent, Ghost(source): Ghost<Seq<Relayed>>)
    requires
        in_order(told(old(events)@), source),
    ensures
        in_order(told(final(events)@), source.push(event@)),
{
    let mut at: usize = events.len();
    while at > 0 && events[at - 1].seqno > event.seqno
        invariant
            at <= events@.len(),
            events@ == old(events)@,
            forall|i: int| at <= i < events@.len() ==> (#[trigger] events@[i]).seqno > event.seqno,
        decreases at,
    {
        at -= 1;
    }
    proof {
        let list = told(events@);
        assert forall|i: int| 0 <= i < at implies (#[trigger] list[i]).number
            <= event@.number by {
            if i < at - 1 {
                assert(list[i].number < list[at - 1].number);
            }
        }
        lemma_one_more(list, source, event@, at as int);
        assert(told(events@.insert(at as int, event)) =~= list.insert(at as int, event@));
    }
    if at > 0 && events[at - 1].seqno == event.seqno {
        return;
    }
    events.insert(at, event);
}

/// The events of the relay by rising numbers, of those with the same number the first.
pub fn collect_events(data: &TextRelayData) -> (events: Vec<RelayEvent>)
    requires
        numbers_fit(data.text_relays@),
    ensures
        in_order(told(events@), relayed(data.text_relays@)),
{
    let mut events: Vec<RelayEvent> = Vec::new();
    let mut g: usize = 0;
    let ghost groups = data.text_relays@;
    assert(in_order(told(events@), relayed(groups.take(0))));
    while g < data.text_relays.len()
        invariant
            groups == data.text_relays@,
            g <= groups.len(),
            numbers_fit(groups),
            in_order(told(events@), relayed(groups.take(g as int))),
        decreases groups.len() - g,
    {
        let group = &data.text_relays[g];
        let ghost before = relayed(groups.take(g as int));
        let mut i: usize = 0;
        assert(before + group_events(*group, 0) =~= before);
        while i < group.text_options.len()
            invariant
                i <= group.text_options@.len(),
                group_fits(*group),
                in_order(told(events@), before + group_events(*group, i as nat)),
            decreases group.text_options@.len() - i,
        {
            let option = &group.text_options[i];
            let ghost source = before + group_events(*group, i as nat);
            if let Some(text) = option_text(option) {
                assert(relayed_number(*group, i as int) <= u64::MAX);
                let seqno: u64 = match option.seqno {
                    Some(number) => number,
                    None => match group.no {
                        Some(no) => {
                            let base: u64 = if no <= u64::MAX / 1000 {
                                no * 1000
                            } else {
                                u64::MAX
                            };
                            base + i as u64
                        },
                        None => i as u64,
                    },
                };
                let event = RelayEvent { seqno, text, state: option.current_game_state.clone() };
                assert(source.push(event@) =~= before + group_events(*group, (i + 1) as nat));
                add_event(&mut events, event, Ghost(source));
            }
            i += 1;
        }
        assert(groups.take(g + 1).drop_last() == groups.take(g as int));
        g += 1;
    }
    assert(groups.take(g as int) == groups);
    events
}

/// The last state that options tell.
pub open spec fn last_state_of(options: Seq<TextOption>) -> Option<GameState>
    decreases options.len(),
{
    if options.len() == 0 {
        None
    } else if options.last().current_game_state is Some {
        options.last().current_game_state
    } else {
        last_state_of(options.drop_last())
    }
}

/// The last state that groups tell.
pub open spec fn last_state_in(groups: Seq<TextRelayGroup>) -> Option<GameState>
    decreases groups.len(),
{
    if groups.len() == 0 {
        None
    } else if last_state_of(groups.last().text_options@) is Some {
        last_state_of(groups.last().text_options@)
    } else {
        last_state_in(groups.drop_last())
    }
}

/// The state that the relay gives as the current one, or else the last that it tells.
pub open spec fn current_state(relay: TextRelayData) -> Option<GameState> {
    if relay.current_game_state is Some {
        relay.current_game_state
    } else {
        last_state_in(relay.text_relays@)
    }
}

/// The state that the relay gives as the current one, or else the last that it tells.
pub fn latest_state(relay: &TextRelayData) -> (state: Option<GameState>)
    ensures
        state == current_state(*relay),
{
    if relay.current_game_state.is_some() {
        return relay.current_game_state.clone();
    }
    let ghost groups = relay.text_relays@;
    let mut g: usize = relay.text_relays.len();
    assert(groups.take(g as int) == groups);
    while g > 0
        invariant
            g <= groups.len(),
            groups == relay.text_relays@,
            relay.current_game_state is None,
            last_state_in(groups) == last_state_in(groups.take(g as int)),
        decreases g,
    {
        let options = &relay.text_relays[g - 1].text_options;
        let mut i: usize = options.len();
        assert(options@.take(i as int) == options@);
        assert(groups.take(g as int).drop_last() == groups.take(g - 1));
        while i > 0
            invariant
                i <= options@.len(),
                0 < g <= groups.len(),
                groups == relay.text_relays@,
                relay.current_game_state is None,
                last_state_in(groups) == last_state_in(groups.take(g as int)),
                options == groups[g - 1].text_options,
                last_state_of(options@) == last_state_of(options@.take(i as int)),
            decreases i,
        {
            assert(options@.take(i as int).drop_last() == options@.take(i - 1));
            if options[i - 1].current_game_state.is_some() {
                return options[i - 1].current_game_state.clone();
            }
            i -= 1;
        }
        g -= 1;
    }
    None
}

proof fn lemma_group_texts(group: TextRelayGroup, count: nat)
    ensures
        forall|i: int|
            0 <= i < group_events(group, count).len() ==> !is_rule(
                (#[trigger] group_events(group, count)[i]).text,
            ),
    decreases count,
{
    if count > 0 {
        lemma_group_texts(group, (count - 1) as nat);
    }
}

/// Every event has a text, which is no rule between two parts of the relay.
pub proof fn law_events_have_texts(groups: Seq<TextRelayGroup>)
    ensures
        forall|i: int|
            0 <= i < relayed(groups).len() ==> (#[trigger] relayed(groups)[i]).text.len() > 0
                && !is_rule(relayed(groups)[i].text),
    decreases groups.len(),
{
    if groups.len() > 0 {
        let before = relayed(groups.drop_last());
        let last = group_events(groups.last(), groups.last().text_options@.len());
        law_events_have_texts(groups.drop_last());
        lemma_group_texts(groups.last(), groups.last().text_options@.len());
        assert forall|i: int| 0 <= i < relayed(groups).len() implies !is_rule(
            (#[trigger] relayed(groups)[i]).text,
        ) by {
            if i < before.len() {
                assert(relayed(groups)[i] == before[i]);
            } else {
                assert(relayed(groups)[i] == last[i - before.len()]);
            }
        }
    }
}

/// Whether the option at `index` of a group holds a play: without the white space at its
/// ends, its text has a character that is no part of a rule.
pub open spec fn is_play(group: TextRelayGroup, index: int) -> bool {
    &&& 0 <= index < group.text_options@.len()
    &&& group.text_options@[index].text matches Some(text) && exists|k: int|
        0 <= k < trimmed(text@).len() && #[trigger] trimmed(text@)[k] != '=' && trimmed(text@)[k]
            != '-' && trimmed(text@)[k] != ' '
}

/// Whether `number` is that of the option at `index` of a group: its own, where it has one.
/// Otherwise the option counts on from a thousand times the number of its group, as far as
/// 64 bits go, or from zero where the group has no number.
pub open spec fn is_numbered(group: TextRelayGroup, index: int, number: int) -> bool {
    let option = group.text_options@[index];
    &&& option.seqno is Some ==> number == option.seqno->0
    &&& option.seqno is None && group.no is None ==> number == index
    &&& option.seqno is None && group.no is Some && group.no->0 * 1000 <= u64::MAX ==> number
        == group.no->0 * 1000 + index
    &&& option.seqno is None && group.no is Some && group.no->0 * 1000 > u64::MAX ==> number
        == u64::MAX + index
}

/// Whether the play at `index` of a group is the event `event`: its text without the white
/// space at its ends, the state behind it and its number.
pub open spec fn is_event_of(group: TextRelayGroup, index: int, event: Relayed) -> bool {
    &&& is_play(group, index)
    &&& event.text == trimmed(group.text_options@[index].text->0@)
    &&& event.state == group.text_options@[index].current_game_state
    &&& is_numbered(group, index, event.number)
}

/// Where the events of the options up to `index` end in those of a group.
proof fn lemma_event_in_group(group: TextRelayGroup, index: int, count: nat)
    requires
        0 <= index < count <= group.text_options@.len(),
        is_play(group, index),
    ensures
        group_events(group, index as nat).len() < group_events(group, count).len(),
        is_event_of(
            group,
            index,
            group_events(group, count)[group_events(group, index as nat).len() as int],
        ),
    decreases count,
{
    if index < count - 1 {
        lemma_event_in_group(group, index, (count - 1) as nat);
    } else {
        let text = trimmed(group.text_options@[index].text->0@);
        assert(!is_rule(text));
    }
}

proof fn lemma_group_from_options(group: TextRelayGroup, count: nat, at: int) -> (index: int)
    requires
        count <= group.text_options@.len(),
        0 <= at < group_events(group, count).len(),
    ensures
        0 <= index < count,
        is_play(group, index),
        group_events(group, index as nat).len() == at,
        is_event_of(group, index, group_events(group, count)[at]),
    decreases count,
{
    let before = group_events(group, (count - 1) as nat);
    if at < before.len() {
        lemma_group_from_options(group, (count - 1) as nat, at)
    } else {
        let text = trimmed(group.text_options@[count - 1].text->0@);
        assert(!is_rule(text));
        let k = choose|k: int|
            0 <= k < text.len() && !(#[trigger] text[k] == '=' || text[k] == '-' || text[k]
                == ' ');
        assert(text[k] != '=' && text[k] != '-' && text[k] != ' ');
        count - 1
    }
}

/// The place of the event of an option among all that were relayed.
spec fn place(groups: Seq<TextRelayGroup>, g: int, i: int) -> int {
    (relayed(groups.take(g)).len() + group_events(groups[g], i as nat).len()) as int
}

proof fn lemma_event_relayed(groups: Seq<TextRelayGroup>, g: int, i: int)
    requires
        0 <= g < groups.len(),
        is_play(groups[g], i),
    ensures
        0 <= place(groups, g, i) < relayed(groups).len(),
        is_event_of(groups[g], i, relayed(groups)[place(groups, g, i)]),
    decreases groups.len(),
{
    let before = groups.drop_last();
    if g < groups.len() - 1 {
        assert(before.take(g) =~= groups.take(g));
        lemma_event_relayed(before, g, i);
    } else {
        assert(groups.take(g) =~= before);
        lemma_event_in_group(groups[g], i, groups[g].text_options@.len());
    }
}

proof fn lemma_relayed_from_options(groups: Seq<TextRelayGroup>, at: int) -> (option: (int, int))
    requires
        0 <= at < relayed(groups).len(),
    ensures
        0 <= option.0 < groups.len(),
        place(groups, option.0, option.1) == at,
        is_event_of(groups[option.0], option.1, relayed(groups)[at]),
    decreases groups.len(),
{
    let before = groups.drop_last();
    if at < relayed(before).len() {
        let option = lemma_relayed_from_options(before, at);
        assert(before.take(option.0) =~= groups.take(option.0));
        option
    } else {
        let last = groups.last();
        let i = lemma_group_from_options(
            last,
            last.text_options@.len(),
            at - relayed(before).len(),
        );
        assert(groups.take(groups.len() - 1) =~= before);
        (groups.len() - 1, i)
    }
}

/// Every play is told: one of the events has its number.
pub proof fn law_every_play_is_told(
    events: Seq<Relayed>,
    groups: Seq<TextRelayGroup>,
    g: int,
    i: int,
)
    requires
        in_order(events, relayed(groups)),
        0 <= g < groups.len(),
        is_play(groups[g], i),
    ensures
        exists|j: int|
            0 <= j < events.len() && is_numbered(groups[g], i, (#[trigger] events[j]).number),
{
    lemma_event_relayed(groups, g, i);
    let event = relayed(groups)[place(groups, g, i)];
    assert(has_number(events, event.number));
    let j = choose|j: int| 0 <= j < events.len() && (#[trigger] events[j]).number == event.number;
    assert(is_numbered(groups[g], i, events[j].number));
}

/// Every event is a play, and the first one of its number: no play of an earlier group, nor
/// an earlier one of the same group, has it. So nothing but plays is told.
pub proof fn law_events_are_first_plays(
    events: Seq<Relayed>,
    groups: Seq<TextRelayGroup>,
    j: int,
) -> (option: (int, int))
    requires
        in_order(events, relayed(groups)),
        0 <= j < events.len(),
    ensures
        0 <= option.0 < groups.len(),
        is_event_of(groups[option.0], option.1, events[j]),
        forall|g: int, i: int|
            0 <= g < groups.len() && (g < option.0 || (g == option.0 && i < option.1))
                && #[trigger] is_play(groups[g], i) ==> !is_numbered(
                groups[g],
                i,
                events[j].number,
            ),
{
    let source = relayed(groups);
    assert(is_first(source, events[j]));
    let at = choose|at: int|
        0 <= at < source.len() && #[trigger] source[at] == events[j] && !has_number(
            source.take(at),
            events[j].number,
        );
    let option = lemma_relayed_from_options(groups, at);
    assert forall|g: int, i: int|
        0 <= g < groups.len() && (g < option.0 || (g == option.0 && i < option.1))
            && #[trigger] is_play(groups[g], i) implies !is_numbered(
        groups[g],
        i,
        events[j].number,
    ) by {
        lemma_event_relayed(groups, g, i);
        lemma_places_rise(groups, g, i, option.0, option.1);
        let earlier = place(groups, g, i);
        if is_numbered(groups[g], i, events[j].number) {
            assert(source[earlier].number == events[j].number);
            assert(source.take(at)[earlier].number == events[j].number);
        }
    }
    option
}

/// The place of a play is before that of every later option.
proof fn lemma_places_rise(groups: Seq<TextRelayGroup>, g: int, i: int, h: int, k: int)
    requires
        0 <= g < groups.len(),
        0 <= h < groups.len(),
        is_play(groups[g], i),
        is_play(groups[h], k),
        g < h || (g == h && i < k),
    ensures
        place(groups, g, i) < place(groups, h, k),
    decreases h - g,
{
    if g == h {
        lemma_event_in_group(groups[g], i, k as nat);
    } else {
        lemma_event_in_group(groups[g], i, groups[g].text_options@.len());
        assert(groups.take(g + 1).drop_last() =~= groups.take(g));
        assert(groups.take(g + 1).last() == groups[g]);
        lemma_relayed_grows(groups, g + 1, h);
    }
}

proof fn lemma_relayed_grows(groups: Seq<TextRelayGroup>, g: int, h: int)
    requires
        0 <= g <= h <= groups.len(),
    ensures
        relayed(groups.take(g)).len() <= relayed(groups.take(h)).len(),
    decreases h - g,
{
    if g < h {
        lemma_relayed_grows(groups, g, h - 1);
        assert(groups.take(h).drop_last() =~= groups.take(h - 1));
    }
}

/// The numbers of the events rise from one to the next.
pub proof fn law_numbers_rise(events: Seq<Relayed>, source: Seq<Relayed>, i: int, j: int)
    requires
        in_order(events, source),
        0 <= i < j < events.len(),
    ensures
        events[i].number < events[j].number,
{
}

/// The current state is the one that the relay gives as such. Where it gives none, it is
/// the last one that an option tells: no later option of that group, and none of a later
/// group, tells one.
pub proof fn law_state_is_latest(relay: TextRelayData, g: int, i: int)
    requires
        0 <= g < relay.text_relays@.len(),
        0 <= i < relay.text_relays@[g].text_options@.len(),
    ensures
        relay.current_game_state is Some ==> current_state(relay) == relay.current_game_state,
        relay.current_game_state is None && relay.text_relays@[g].text_options@[i].current_game_state
            is Some && (forall|k: int|
            i < k < relay.text_relays@[g].text_options@.len()
                ==> (#[trigger] relay.text_relays@[g].text_options@[k]).current_game_state is None)
            && (forall|h: int, k: int|
            g < h < relay.text_relays@.len() && 0 <= k
                < relay.text_relays@[h].text_options@.len()
                ==> (#[trigger] relay.text_relays@[h].text_options@[k]).current_game_state is None)
            ==> current_state(relay)
            == relay.text_relays@[g].text_options@[i].current_game_state,
{
    let groups = relay.text_relays@;
    if groups[g].text_options@[i].current_game_state is Some && (forall|k: int|
        i < k < groups[g].text_options@.len()
            ==> (#[trigger] groups[g].text_options@[k]).current_game_state is None) && (forall|
        h: int,
        k: int,
    |
        g < h < groups.len() && 0 <= k < groups[h].text_options@.len()
            ==> (#[trigger] groups[h].text_options@[k]).current_game_state is None) {
        lemma_last_state_of(groups[g].text_options@, i);
        lemma_last_state_in(groups, g);
    }
}

/// Without a state in the relay there is none.
pub proof fn law_no_state_without_one(relay: TextRelayData)
    requires
        relay.current_game_state is None,
        forall|h: int, k: int|
            0 <= h < relay.text_relays@.len() && 0 <= k < relay.text_relays@[h].text_options@.len()
                ==> (#[trigger] relay.text_relays@[h].text_options@[k]).current_game_state is None,
    ensures
        current_state(relay) is None,
{
    lemma_no_state_in(relay.text_relays@);
}

proof fn lemma_last_state_of(options: Seq<TextOption>, i: int)
    requires
        0 <= i < options.len(),
        options[i].current_game_state is Some,
        forall|k: int| i < k < options.len() ==> (#[trigger] options[k]).current_game_state is None,
    ensures
        last_state_of(options) == options[i].current_game_state,
    decreases options.len(),
{
    if i < options.len() - 1 {
        assert(options[options.len() - 1].current_game_state is None);
        lemma_last_state_of(options.drop_last(), i);
    }
}

proof fn lemma_no_state_of(options: Seq<TextOption>)
    requires
        forall|k: int| 0 <= k < options.len() ==> (#[trigger] options[k]).current_game_state is None,
    ensures
        last_state_of(options) is None,
    decreases options.len(),
{
    if options.len() > 0 {
        assert(options[options.len() - 1].current_game_state is None);
        lemma_no_state_of(options.drop_last());
    }
}

proof fn lemma_last_state_in(groups: Seq<TextRelayGroup>, g: int)
    requires
        0 <= g < groups.len(),
        last_state_of(groups[g].text_options@) is Some,
        forall|h: int, k: int|
            g < h < groups.len() && 0 <= k < groups[h].text_options@.len()
                ==> (#[trigger] groups[h].text_options@[k]).current_game_state is None,
    ensures
        last_state_in(groups) == last_state_of(groups[g].text_options@),
    decreases groups.len(),
{
    if g < groups.len() - 1 {
        let last = groups.len() - 1;
        let before = groups.drop_last();
        assert forall|k: int| 0 <= k < groups[last].text_options@.len() implies (
        #[trigger] groups.last().text_options@[k]).current_game_state is None by {
            assert(groups[last].text_options@[k].current_game_state is None);
        }
        lemma_no_state_of(groups.last().text_options@);
        assert forall|h: int, k: int|
            g < h < before.len() && 0 <= k < before[h].text_options@.len() implies (
        #[trigger] before[h].text_options@[k]).current_game_state is None by {
            assert(groups[h].text_options@[k].current_game_state is None);
        }
        lemma_last_state_in(before, g);
    }
}

proof fn lemma_no_state_in(groups: Seq<TextRelayGroup>)
    requires
        forall|h: int, k: int|
            0 <= h < groups.len() && 0 <= k < groups[h].text_options@.len()
                ==> (#[trigger] groups[h].text_options@[k]).current_game_state is None,
    ensures
        last_state_in(groups) is None,
    decreases groups.len(),
{
    if groups.len() > 0 {
        let last = groups.len() - 1;
        let before = groups.drop_last();
        assert forall|k: int| 0 <= k < groups[last].text_options@.len() implies (
        #[trigger] groups.last().text_options@[k]).current_game_state is None by {
            assert(groups[last].text_options@[k].current_game_state is None);
        }
        lemma_no_state_of(groups.last().text_options@);
        assert forall|h: int, k: int|
            0 <= h < before.len() && 0 <= k < before[h].text_options@.len() implies (
        #[trigger] before[h].text_options@[k]).current_game_state is None by {
            assert(groups[h].text_options@[k].current_game_state is None);
        }
        lemma_no_state_in(before);
    }
}

/// The numbers of a relay fit exactly where those of its plays do.
pub proof fn law_numbers_fit_for_plays(groups: Seq<TextRelayGroup>)
    ensures
        numbers_fit(groups) == (forall|g: int, i: int, n: int|
            0 <= g < groups.len() && is_play(groups[g], i) && #[trigger] is_numbered(
                groups[g],
                i,
                n,
            ) ==> n <= u64::MAX),
{
    if numbers_fit(groups) {
        assert forall|g: int, i: int, n: int|
            0 <= g < groups.len() && is_play(groups[g], i) && #[trigger] is_numbered(
                groups[g],
                i,
                n,
            ) implies n <= u64::MAX by {
            assert(group_fits(groups[g]));
            assert(!is_rule(trimmed(groups[g].text_options@[i].text->0@)));
            assert(relayed_text(groups[g].text_options@[i]) is Some);
        }
    }
    if forall|g: int, i: int, n: int|
        0 <= g < groups.len() && is_play(groups[g], i) && #[trigger] is_numbered(
            groups[g],
            i,
            n,
        ) ==> n <= u64::MAX {
        assert forall|g: int| 0 <= g < groups.len() implies group_fits(#[trigger] groups[g]) by {
            let group = groups[g];
            assert forall|i: int|
                0 <= i < group.text_options@.len() && relayed_text(
                    #[trigger] group.text_options@[i],
                ) is Some implies relayed_number(group, i) <= u64::MAX by {
                let text = trimmed(group.text_options@[i].text->0@);
                let k = choose|k: int|
                    0 <= k < text.len() && !(#[trigger] text[k] == '=' || text[k] == '-' || text[k]
                        == ' ');
                assert(text[k] != '=');
                assert(is_play(group, i));
                assert(is_numbered(group, i, relayed_number(group, i)));
            }
        }
    }
}

} // verus!
