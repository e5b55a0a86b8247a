//! What the user has said, as it is kept when a context is compacted.

use vstd::prelude::*;

pub mod remembering;

use crate::event::effective_history_events;
use crate::event::events_view;
use crate::event::find_latest_compaction;
use crate::event::history_events;
use crate::event::latest_compaction;
use crate::event::lemma_lineage_start;
use crate::event::lemma_position_of_event;
use crate::event::lemma_position_stays;
use crate::event::lineage;
use crate::event::position_of_event;
use crate::event::Event;
use crate::event::EventError;
use crate::event::EventId;
use crate::event::EventKind;
use crate::event::EventText;
use crate::event::Happening;
use crate::json::is_read_back;
use crate::json::law_quoted_text_is_read_back;
use crate::json::quote_text;
use crate::json::quoted;
use crate::text::decimal;
use crate::text::decimal_text;
use crate::text::is_white_space;
use crate::text::occurs_at;
use crate::text::repeat_char;
use crate::text::repeated;
use crate::text::texts_view;
use crate::text::trim_end_text;
use crate::text::trimmed_end;

verus! {

/// What the user asked for, and what they added to it.
#[derive(Debug)]
pub struct UserTurnHistory {
    pub id: EventId,
    pub content: String,
    pub follow_ups: Vec<String>,
}

/// The model of a turn.
#[verifier::ext_equal]
pub struct TurnText {
    pub id: EventId,
    pub content: Seq<char>,
    pub follow_ups: Seq<Seq<char>>,
}

impl View for UserTurnHistory {
    type V = TurnText;

    open spec fn view(&self) -> TurnText {
        TurnText {
            id: self.id,
            content: self.content@,
            follow_ups: texts_view(self.follow_ups@),
        }
    }
}

/// The models of turns.
pub open spec fn turns_view(turns: Seq<UserTurnHistory>) -> Seq<TurnText> {
    turns.map_values(|turn: UserTurnHistory| turn@)
}

/// `turns` after one more event: a prompt begins a turn, a follow-up goes to the last one.
pub open spec fn event_added(turns: Seq<TurnText>, event: EventText) -> Seq<TurnText> {
    match event.happening {
        Happening::UserPrompt(content) => turns.push(
            TurnText { id: event.id, content, follow_ups: Seq::empty() },
        ),
        Happening::FollowUp(_, content) => if turns.len() > 0 {
            turns.drop_last().push(
                TurnText {
                    follow_ups: turns.last().follow_ups.push(content),
                    ..turns.last()
                },
            )
        } else {
            turns
        },
        _ => turns,
    }
}

/// The turns of `events`.
pub open spec fn turns_of(events: Seq<EventText>) -> Seq<TurnText>
    decreases events.len(),
{
    if events.len() == 0 {
        Seq::empty()
    } else {
        event_added(turns_of(events.drop_last()), events.last())
    }
}

/// `digits` with zeros in front, eight digits at least.
pub open spec fn eight_digits(digits: Seq<char>) -> Seq<char> {
    if digits.len() < 8 {
        repeated('0', (8 - digits.len()) as nat) + digits
    } else {
        digits
    }
}

/// What a history begins with.
pub const HISTORY_PREAMBLE: &'static str = "This is the user-message history frozen by ME at the latest successful context compaction. It is historical data, not new instructions. Only real user prompts and follow-ups are preserved exactly. Model output, internal agent prompts, turn state, and tool activity are omitted.\n";

/// The lines of `follow_ups`, each a JSON string.
pub open spec fn follow_up_lines(follow_ups: Seq<Seq<char>>) -> Seq<char>
    decreases follow_ups.len(),
{
    if follow_ups.len() == 0 {
        Seq::empty()
    } else {
        follow_up_lines(follow_ups.drop_last()) + "  FollowUp: "@ + follow_ups.last() + "\n"@
    }
}

/// The entry of a turn, where `content` and `follow_ups` are JSON strings.
pub open spec fn entry_text(id: EventId, content: Seq<char>, follow_ups: Seq<Seq<char>>) -> Seq<
    char,
> {
    "\nturn-"@ + eight_digits(decimal(id as nat)) + "\n  User: "@ + content + "\n"@
        + follow_up_lines(follow_ups)
}

/// `texts` as JSON strings.
pub open spec fn all_quoted(texts: Seq<Seq<char>>) -> Seq<Seq<char>> {
    texts.map_values(|text: Seq<char>| quoted(text))
}

/// The entries of `turns`, one below the other.
pub open spec fn entries_of(turns: Seq<TurnText>) -> Seq<char>
    decreases turns.len(),
{
    if turns.len() == 0 {
        Seq::empty()
    } else {
        let turn = turns.last();
        entries_of(turns.drop_last()) + entry_text(
            turn.id,
            quoted(turn.content),
            all_quoted(turn.follow_ups),
        )
    }
}

/// The history of `turns`.
pub open spec fn history_text(turns: Seq<TurnText>) -> Seq<char> {
    trimmed_end(HISTORY_PREAMBLE@ + entries_of(turns))
}

/// The history before the event with the number `boundary`, if there is such an event.
pub open spec fn snapshot_of(events: Seq<EventText>, boundary: EventId) -> Option<Seq<char>> {
    match history_events(events, boundary) {
        Some(history) => Some(history_text(turns_of(history))),
        None => None,
    }
}

/// A history does not change when more happens.
pub proof fn law_snapshot_is_frozen(
    events: Seq<EventText>,
    more: Seq<EventText>,
    boundary: EventId,
)
    requires
        position_of_event(events, boundary) is Some,
    ensures
        snapshot_of(events + more, boundary) == snapshot_of(events, boundary),
{
    lemma_position_stays(events, more, boundary);
    lemma_position_of_event(events, boundary);
    let at = position_of_event(events, boundary)->0;
    assert((events + more).take(at) =~= events.take(at));
}

/// Whether `event` is neither a prompt nor a follow-up of the user.
pub open spec fn is_not_from_user(event: EventText) -> bool {
    event.happening !is UserPrompt && event.happening !is FollowUp
}

/// What does not come from the user leaves no trace in a history.
pub proof fn law_only_the_user_is_remembered(
    before: Seq<EventText>,
    event: EventText,
    after: Seq<EventText>,
)
    requires
        is_not_from_user(event),
    ensures
        turns_of(before.push(event) + after) == turns_of(before + after),
    decreases after.len(),
{
    if after.len() == 0 {
        assert(before.push(event) + after =~= before.push(event));
        assert(before.push(event).drop_last() =~= before);
        assert(before + after =~= before);
    } else {
        law_only_the_user_is_remembered(before, event, after.drop_last());
        assert((before.push(event) + after).drop_last() =~= before.push(event)
            + after.drop_last());
        assert((before + after).drop_last() =~= before + after.drop_last());
    }
}

/// Every prompt of the user has its turn, in order: a history grows by one turn with each prompt
/// and by none with anything else.
pub proof fn law_every_prompt_is_remembered(events: Seq<EventText>, event: EventText)
    ensures
        event.happening matches Happening::UserPrompt(content) ==> turns_of(events.push(event))
            == turns_of(events).push(
            TurnText { id: event.id, content, follow_ups: Seq::empty() },
        ),
        event.happening !is UserPrompt ==> turns_of(events.push(event)).len() == turns_of(
            events,
        ).len(),
{
    assert(events.push(event).drop_last() =~= events);
}

/// Whether `later` holds all turns of `earlier`, in the same order, with all their follow-ups.
pub open spec fn remembers(later: Seq<TurnText>, earlier: Seq<TurnText>) -> bool {
    &&& earlier.len() <= later.len()
    &&& forall|i: int|
        0 <= i < earlier.len() ==> {
            &&& (#[trigger] later[i]).id == earlier[i].id
            &&& later[i].content == earlier[i].content
            &&& earlier[i].follow_ups.is_prefix_of(later[i].follow_ups)
        }
}

/// Whether none of `events` clears the context.
pub open spec fn keeps_context(events: Seq<EventText>) -> bool {
    forall|i: int| 0 <= i < events.len() ==> !((#[trigger] events[i]).happening is Cleared)
}

/// Histories accumulate: what has been remembered stays as long as the context is not cleared.
pub proof fn law_histories_accumulate(events: Seq<EventText>, more: Seq<EventText>)
    requires
        keeps_context(more),
    ensures
        remembers(turns_of(lineage(events + more)), turns_of(lineage(events))),
    decreases more.len(),
{
    if more.len() == 0 {
        assert(events + more =~= events);
    } else {
        assert(keeps_context(more.drop_last())) by {
            assert forall|i: int| 0 <= i < more.len() - 1 implies !((
            #[trigger] more.drop_last()[i]).happening is Cleared) by {
                assert(more.drop_last()[i] == more[i]);
            }
        }
        law_histories_accumulate(events, more.drop_last());
        assert(more[more.len() - 1] == more.last());
        let before = events + more.drop_last();
        let after = events + more;
        assert(after.drop_last() =~= before);
        lemma_lineage_start(before);
        assert(lineage(after).drop_last() =~= lineage(before));
        assert(lineage(after).last() == more.last());
    }
}

/// Whether `part` stands somewhere in `text`.
pub open spec fn holds(text: Seq<char>, part: Seq<char>) -> bool {
    exists|at: int| #[trigger] occurs_at(text, part, at)
}

/// What the user has said is preserved exactly: each prompt and each follow-up of a turn stands in
/// the history as a JSON string, from which it can be read back.
pub proof fn law_prompts_are_preserved_exactly(turns: Seq<TurnText>, index: int)
    requires
        0 <= index < turns.len(),
    ensures
        holds(
            history_text(turns),
            "\nturn-"@ + eight_digits(decimal(turns[index].id as nat)) + "\n  User: "@ + quoted(
                turns[index].content,
            ),
        ),
        is_read_back(turns[index].content),
        forall|i: int|
            0 <= i < turns[index].follow_ups.len() ==> holds(
                history_text(turns),
                "  FollowUp: "@ + quoted(#[trigger] turns[index].follow_ups[i]),
            ) && is_read_back(turns[index].follow_ups[i]),
{
    let turn = turns[index];
    let (before, after) = split_at_entry(turns, index);
    let said = "\nturn-"@ + eight_digits(decimal(turn.id as nat)) + "\n  User: "@ + quoted(
        turn.content,
    );
    let follow_ups = all_quoted(turn.follow_ups);
    let lines = follow_up_lines(follow_ups);
    lemma_prompt_stays(before, said, lines, after);
    law_quoted_text_is_read_back(turn.content);
    assert forall|i: int| 0 <= i < turn.follow_ups.len() implies holds(
        history_text(turns),
        "  FollowUp: "@ + quoted(#[trigger] turn.follow_ups[i]),
    ) && is_read_back(turn.follow_ups[i]) by {
        let (above, below) = split_at_line(follow_ups, i);
        assert(follow_ups[i] == quoted(turn.follow_ups[i]));
        lemma_line_stays(before, said, above, "  FollowUp: "@ + follow_ups[i], below, after);
        law_quoted_text_is_read_back(turn.follow_ups[i]);
    }
}

proof fn lemma_prompt_stays(
    before: Seq<char>,
    said: Seq<char>,
    lines: Seq<char>,
    after: Seq<char>,
)
    requires
        said.len() > 0,
        said.last() == '"',
    ensures
        holds(
            trimmed_end(HISTORY_PREAMBLE@ + (before + (said + "\n"@ + lines) + after)),
            said,
        ),
{
    let head = HISTORY_PREAMBLE@ + before;
    let tail = "\n"@ + lines + after;
    assert(HISTORY_PREAMBLE@ + (before + (said + "\n"@ + lines) + after) =~= head + said + tail);
    lemma_part_stays(head, said, tail);
}

proof fn lemma_line_stays(
    before: Seq<char>,
    said: Seq<char>,
    above: Seq<char>,
    line: Seq<char>,
    below: Seq<char>,
    after: Seq<char>,
)
    requires
        line.len() > 0,
        line.last() == '"',
    ensures
        holds(
            trimmed_end(
                HISTORY_PREAMBLE@ + (before + (said + "\n"@ + (above + (line + "\n"@) + below))
                    + after),
            ),
            line,
        ),
{
    let head = HISTORY_PREAMBLE@ + before + said + "\n"@ + above;
    let tail = "\n"@ + below + after;
    assert(HISTORY_PREAMBLE@ + (before + (said + "\n"@ + (above + (line + "\n"@) + below)) + after)
        =~= head + line + tail);
    lemma_part_stays(head, line, tail);
}

/// What stands before and behind the entry of the turn `index`.
proof fn split_at_entry(turns: Seq<TurnText>, index: int) -> (r: (Seq<char>, Seq<char>))
    requires
        0 <= index < turns.len(),
    ensures
        entries_of(turns) == r.0 + entry_text(
            turns[index].id,
            quoted(turns[index].content),
            all_quoted(turns[index].follow_ups),
        ) + r.1,
    decreases turns.len(),
{
    let last = turns.last();
    let entry = entry_text(last.id, quoted(last.content), all_quoted(last.follow_ups));
    if index == turns.len() - 1 {
        let before = entries_of(turns.drop_last());
        assert(before + entry + Seq::empty() =~= entries_of(turns));
        (before, Seq::empty())
    } else {
        let (before, after) = split_at_entry(turns.drop_last(), index);
        let found = turns[index];
        let middle = entry_text(found.id, quoted(found.content), all_quoted(found.follow_ups));
        assert(before + middle + (after + entry) =~= before + middle + after + entry);
        (before, after + entry)
    }
}

/// What stands before and behind the line of the follow-up `index`.
proof fn split_at_line(follow_ups: Seq<Seq<char>>, index: int) -> (r: (Seq<char>, Seq<char>))
    requires
        0 <= index < follow_ups.len(),
    ensures
        follow_up_lines(follow_ups) == r.0 + ("  FollowUp: "@ + follow_ups[index] + "\n"@) + r.1,
    decreases follow_ups.len(),
{
    let last = "  FollowUp: "@ + follow_ups.last() + "\n"@;
    let before = follow_up_lines(follow_ups.drop_last());
    assert(follow_up_lines(follow_ups) =~= before + last);
    if index == follow_ups.len() - 1 {
        assert(before + last + Seq::empty() =~= follow_up_lines(follow_ups));
        (before, Seq::empty())
    } else {
        let (above, below) = split_at_line(follow_ups.drop_last(), index);
        let line = "  FollowUp: "@ + follow_ups[index] + "\n"@;
        assert(above + line + (below + last) =~= above + line + below + last);
        (above, below + last)
    }
}

/// A part that ends with a quotation mark stays where the white space behind it is dropped.
proof fn lemma_part_stays(before: Seq<char>, part: Seq<char>, after: Seq<char>)
    requires
        part.len() > 0,
        part.last() == '"',
    ensures
        holds(trimmed_end(before + part + after), part),
    decreases after.len(),
{
    let text = before + part + after;
    if after.len() == 0 {
        assert(text.last() == part.last());
        assert(text.subrange(before.len() as int, (before.len() + part.len()) as int) =~= part);
        assert(occurs_at(text, part, before.len() as int));
    } else if is_white_space(text.last()) {
        lemma_part_stays(before, part, after.drop_last());
        assert(text.drop_last() =~= before + part + after.drop_last());
    } else {
        assert(text.subrange(before.len() as int, (before.len() + part.len()) as int) =~= part);
        assert(occurs_at(text, part, before.len() as int));
    }
}

/// Collects the turns of `events[from..to]`.
fn collect_turns(events: &[Event], from: usize, to: usize) -> (r: Vec<UserTurnHistory>)
    requires
        from <= to <= events@.len(),
    ensures
        turns_view(r@) == turns_of(events_view(events@).subrange(from as int, to as int)),
{
    let ghost all = events_view(events@);
    let mut turns: Vec<UserTurnHistory> = Vec::new();
    assert(turns_view(turns@) =~= turns_of(all.subrange(from as int, from as int)));
    for i in from..to
        invariant
            all == events_view(events@),
            from <= to <= events@.len(),
            turns_view(turns@) == turns_of(all.subrange(from as int, i as int)),
    {
        let ghost now = all.subrange(from as int, i + 1);
        assert(now.drop_last() =~= all.subrange(from as int, i as int));
        assert(now.last() == events@[i as int]@);
        let ghost before = turns_view(turns@);
        match &events[i].kind {
            EventKind::UserPrompt { content } => {
                let follow_ups: Vec<String> = Vec::new();
                let turn = UserTurnHistory { id: events[i].id, content: content.clone(), follow_ups };
                assert(turn@.follow_ups =~= Seq::empty());
                turns.push(turn);
                assert(turns_view(turns@) =~= before.push(turn@));
            },
            EventKind::FollowUpPrompt { content, .. } => {
                if let Some(turn) = turns.pop() {
                    let mut turn = turn;
                    let ghost last = turn@;
                    assert(turns_view(turns@) =~= before.drop_last());
                    turn.follow_ups.push(content.clone());
                    assert(turn@.follow_ups =~= last.follow_ups.push(content@));
                    turns.push(turn);
                    assert(turns_view(turns@) =~= before.drop_last().push(turn@));
                } else {
                    assert(before.len() == 0);
                }
            },
            _ => {},
        }
    }
    turns
}

/// The number with zeros in front, eight digits at least.
fn padded_number(id: EventId) -> (r: String)
    ensures
        r@ == eight_digits(decimal(id as nat)),
{
    let digits = decimal_text(id);
    let count = crate::text::chars_of(&digits).len();
    if count < 8 {
        let mut padded = repeat_char('0', 8 - count);
        padded.append(&digits);
        padded
    } else {
        digits
    }
}

/// The entry of a turn, where its content and its follow-ups are JSON strings.
pub fn turn_entry(id: EventId, content: &str, follow_ups: &Vec<String>) -> (r: String)
    ensures
        r@ == entry_text(id, content@, texts_view(follow_ups@)),
{
    let mut entry = "\nturn-".to_owned();
    entry.append(&padded_number(id));
    entry.append("\n  User: ");
    entry.append(content);
    entry.append("\n");
    let ghost head = entry@;
    let ghost all = texts_view(follow_ups@);
    assert(head + follow_up_lines(all.take(0)) =~= head);
    for i in 0..follow_ups.len()
        invariant
            all == texts_view(follow_ups@),
            entry@ == head + follow_up_lines(all.take(i as int)),
    {
        assert(all.take(i + 1).drop_last() =~= all.take(i as int));
        assert(all.take(i + 1).last() == follow_ups@[i as int]@);
        entry.append("  FollowUp: ");
        entry.append(&follow_ups[i]);
        entry.append("\n");
        assert(entry@ =~= head + follow_up_lines(all.take(i + 1)));
    }
    assert(all.take(all.len() as int) =~= all);
    entry
}

/// The texts as JSON strings.
fn quote_all(texts: &Vec<String>) -> (r: Vec<String>)
    ensures
        texts_view(r@) == all_quoted(texts_view(texts@)),
{
    let ghost all = all_quoted(texts_view(texts@));
    let mut r: Vec<String> = Vec::new();
    for i in 0..texts.len()
        invariant
            all == all_quoted(texts_view(texts@)),
            texts_view(r@) == all.take(i as int),
    {
        let text = quote_text(&texts[i]);
        let ghost before = texts_view(r@);
        r.push(text);
        assert(texts_view(r@) =~= before.push(text@));
        assert(before.push(text@) =~= all.take(i + 1));
    }
    assert(all.take(all.len() as int) =~= all);
    r
}

/// The history of the turns.
pub fn render(turns: &Vec<UserTurnHistory>) -> (r: String)
    ensures
        r@ == history_text(turns_view(turns@)),
{
    let ghost all = turns_view(turns@);
    let mut output = HISTORY_PREAMBLE.to_owned();
    assert(output@ =~= HISTORY_PREAMBLE@ + entries_of(all.take(0)));
    for i in 0..turns.len()
        invariant
            all == turns_view(turns@),
            output@ == HISTORY_PREAMBLE@ + entries_of(all.take(i as int)),
    {
        assert(all.take(i + 1).drop_last() =~= all.take(i as int));
        assert(all.take(i + 1).last() == turns@[i as int]@);
        let content = quote_text(&turns[i].content);
        let follow_ups = quote_all(&turns[i].follow_ups);
        output.append(&turn_entry(turns[i].id, &content, &follow_ups));
        assert(output@ =~= HISTORY_PREAMBLE@ + entries_of(all.take(i + 1)));
    }
    assert(all.take(all.len() as int) =~= all);
    trim_end_text(&output)
}

/// What the user has said before the event with the number `boundary`, since the context was
/// last cleared.
pub fn snapshot(events: &[Event], boundary: EventId) -> (r: Result<String, EventError>)
    ensures
        match r {
            Ok(text) => snapshot_of(events_view(events@), boundary) == Some(text@),
            Err(error) => error == EventError::Unknown(boundary) && snapshot_of(
                events_view(events@),
                boundary,
            ) is None,
        },
{
    match effective_history_events(events, boundary) {
        Ok((from, to)) => Ok(render(&collect_turns(events, from, to))),
        Err(error) => Err(error),
    }
}

/// What the user has said before the latest completed compaction, if there is one that no
/// clearing of the context has followed.
pub fn latest_snapshot(events: &[Event]) -> (r: Result<Option<String>, EventError>)
    ensures
        match latest_compaction(events_view(events@)) {
            None => r matches Ok(None),
            Some(boundary) => match r {
                Ok(Some(text)) => snapshot_of(events_view(events@), boundary) == Some(text@),
                Ok(None) => false,
                Err(error) => error == EventError::Unknown(boundary) && snapshot_of(
                    events_view(events@),
                    boundary,
                ) is None,
            },
        },
{
    match find_latest_compaction(events) {
        None => Ok(None),
        Some(boundary) => match snapshot(events, boundary) {
            Ok(text) => Ok(Some(text)),
            Err(error) => Err(error),
        },
    }
}

} // verus!
