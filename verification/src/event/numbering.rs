//! The numbers of events: they lead to the event, and from a compaction back to its call.

use vstd::prelude::*;

use crate::event::history_events;
use crate::event::latest_compaction;
use crate::event::law_events_are_found_by_their_number;
use crate::event::lineage;
use crate::event::position_of_event;
use crate::event::recorded;
use crate::event::started_call;
use crate::event::CompactKind;
use crate::event::CompactState;
use crate::event::EventId;
use crate::event::EventText;
use crate::event::Happening;

verus! {

/// Whether the events are numbered one by one, from one.
pub open spec fn are_numbered(events: Seq<EventText>) -> bool {
    forall|i: int| 0 <= i < events.len() ==> (#[trigger] events[i]).id == i + 1
}

/// Events are numbered one by one as they are recorded, and each is found by its number.
pub proof fn law_numbers_lead_to_their_events(
    events: Seq<EventText>,
    happening: Happening,
    at: int,
)
    requires
        are_numbered(events),
        events.len() < u64::MAX,
        0 <= at <= events.len(),
    ensures
        ({
            let after = recorded(events, happening);
            &&& are_numbered(after)
            &&& after.take(events.len() as int) == events
            &&& after.last().happening == happening
            &&& position_of_event(after, (at + 1) as u64) == Some(at)
        }),
{
    let after = recorded(events, happening);
    let id = (at + 1) as u64;
    assert(after.take(events.len() as int) =~= events);
    law_events_are_found_by_their_number(after, id);
    assert(after[at].id == id);
}

/// The events before one with a number that none of them has are its history, as far as the context
/// has not been cleared: the event itself is not, nor is anything that follows it.
pub proof fn law_a_history_ends_before_its_event(
    before: Seq<EventText>,
    event: EventText,
    after: Seq<EventText>,
)
    requires
        forall|i: int| 0 <= i < before.len() ==> (#[trigger] before[i]).id != event.id,
    ensures
        history_events(before.push(event) + after, event.id) == Some(lineage(before)),
{
    let events = before.push(event) + after;
    law_events_are_found_by_their_number(events, event.id);
    let at = before.len() as int;
    assert(events[at].id == event.id);
    if let Some(found) = position_of_event(events, event.id) {
        if found < at {
            assert(events[found] == before[found]);
        }
    }
    assert(events.take(at) =~= before);
}

/// There is no history before an event that there is not.
pub proof fn law_unknown_events_have_no_history(events: Seq<EventText>, id: EventId)
    requires
        forall|i: int| 0 <= i < events.len() ==> (#[trigger] events[i]).id != id,
    ensures
        history_events(events, id) is None,
{
    law_events_are_found_by_their_number(events, id);
}

/// A compaction leads back to the call that asked for it, whatever happens in between, and is the
/// latest one once it is completed. What is no compaction leads to no call.
pub proof fn law_compactions_lead_back_to_their_call(
    events: Seq<EventText>,
    call: EventId,
    turn: EventId,
    manner: CompactKind,
    more: Seq<EventText>,
    summary: Seq<char>,
    error: Seq<char>,
)
    requires
        are_numbered(events),
        events.len() < u64::MAX,
    ensures
        ({
            let started = recorded(
                events,
                Happening::CompactStarted { tool_call_id: call, turn, manner },
            );
            let compact = (events.len() + 1) as u64;
            let completed = Happening::CompactUpdate {
                compact,
                tool_call_id: call,
                state: CompactState::Completed,
                summary,
                error,
            };
            &&& started_call(started + more, compact) == Some(call)
            &&& latest_compaction(recorded(started + more, completed)) == Some(call)
        }),
        forall|i: int|
            0 <= i < events.len() && !((#[trigger] events[i]).happening is CompactStarted)
                ==> started_call(events, events[i].id) is None,
{
    let happening = Happening::CompactStarted { tool_call_id: call, turn, manner };
    let started = recorded(events, happening);
    let compact = (events.len() + 1) as u64;
    let all = started + more;
    law_events_are_found_by_their_number(all, compact);
    let at = events.len() as int;
    assert(all[at] == started[at]);
    if let Some(found) = position_of_event(all, compact) {
        if found < at {
            assert(all[found] == events[found]);
        }
    }
    let completed = Happening::CompactUpdate {
        compact,
        tool_call_id: call,
        state: CompactState::Completed,
        summary,
        error,
    };
    assert(recorded(all, completed).last().happening == completed);
    assert forall|i: int|
        0 <= i < events.len() && !((
        #[trigger] events[i]).happening is CompactStarted) implies started_call(
        events,
        events[i].id,
    ) is None by {
        law_events_are_found_by_their_number(events, events[i].id);
        let found = position_of_event(events, events[i].id)->0;
        assert(events[found].id == found + 1);
    }
}

} // verus!
