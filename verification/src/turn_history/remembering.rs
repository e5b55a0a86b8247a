//! What a history remembers: all that the user has said, turn by turn, in order.

use vstd::prelude::*;

use crate::event::EventText;
use crate::event::Happening;
use crate::json::quoted;
use crate::parts::number_of;
use crate::reading::law_decimals_are_read_back;
use crate::text::decimal;
use crate::text::is_white_space;
use crate::text::repeated;
use crate::text::trimmed_end;
use crate::turn_history::all_quoted;
use crate::turn_history::eight_digits;
use crate::turn_history::entries_of;
use crate::turn_history::entry_text;
use crate::turn_history::follow_up_lines;
use crate::turn_history::history_text;
use crate::turn_history::turns_of;
use crate::turn_history::TurnText;
use crate::turn_history::HISTORY_PREAMBLE;

verus! {

/// Every follow-up of the user is remembered: it goes behind the others of the last turn, and
/// nothing else changes. Where there is no turn yet there is none to add it to.
pub proof fn law_every_follow_up_is_remembered(events: Seq<EventText>, event: EventText)
    requires
        event.happening is FollowUp,
    ensures
        turns_of(events).len() > 0 ==> {
            let before = turns_of(events);
            let after = turns_of(events.push(event));
            &&& after.len() == before.len()
            &&& after.drop_last() == before.drop_last()
            &&& after.last().id == before.last().id
            &&& after.last().content == before.last().content
            &&& after.last().follow_ups == before.last().follow_ups.push(event.happening->FollowUp_1)
        },
        turns_of(events).len() == 0 ==> turns_of(events.push(event)).len() == 0,
{
    assert(events.push(event).drop_last() =~= events);
    let before = turns_of(events);
    if before.len() > 0 {
        assert(turns_of(events.push(event)).drop_last() =~= before.drop_last());
    }
}

/// What the user adds in `events`, in order.
pub open spec fn follow_ups_in(events: Seq<EventText>) -> Seq<Seq<char>>
    decreases events.len(),
{
    if events.len() == 0 {
        Seq::empty()
    } else {
        match events.last().happening {
            Happening::FollowUp(_, content) => follow_ups_in(events.drop_last()).push(content),
            _ => follow_ups_in(events.drop_last()),
        }
    }
}

/// A turn is a prompt with all follow-ups up to the next prompt, and it comes behind the turns
/// before it, which stay as they are.
pub proof fn law_turns_hold_all_their_follow_ups(
    before: Seq<EventText>,
    prompt: EventText,
    after: Seq<EventText>,
)
    requires
        prompt.happening is UserPrompt,
        forall|i: int| 0 <= i < after.len() ==> !((#[trigger] after[i]).happening is UserPrompt),
    ensures
        turns_of(before.push(prompt) + after) == turns_of(before).push(
            TurnText {
                id: prompt.id,
                content: prompt.happening->UserPrompt_0,
                follow_ups: follow_ups_in(after),
            },
        ),
    decreases after.len(),
{
    let all = before.push(prompt) + after;
    if after.len() == 0 {
        assert(all =~= before.push(prompt));
        assert(all.drop_last() =~= before);
    } else {
        let rest = after.drop_last();
        assert forall|i: int| 0 <= i < rest.len() implies !((
        #[trigger] rest[i]).happening is UserPrompt) by {
            assert(rest[i] == after[i]);
        }
        law_turns_hold_all_their_follow_ups(before, prompt, rest);
        assert(all.drop_last() =~= before.push(prompt) + rest);
        assert(after[after.len() - 1] == all.last());
        let turns = turns_of(all.drop_last());
        assert(turns.drop_last() =~= turns_of(before));
    }
}

proof fn lemma_trimmed_grows(text: Seq<char>, more: Seq<char>)
    ensures
        trimmed_end(text).is_prefix_of(text),
        trimmed_end(text).is_prefix_of(trimmed_end(text + more)),
    decreases text.len() + more.len(),
{
    let all = text + more;
    if more.len() > 0 {
        lemma_trimmed_grows(text, more.drop_last());
        assert(all.drop_last() =~= text + more.drop_last());
        let kept = trimmed_end(text);
        if !is_white_space(all.last()) {
            assert(all.take(kept.len() as int) =~= text.take(kept.len() as int));
        }
    } else {
        assert(all =~= text);
        if text.len() > 0 && is_white_space(text.last()) {
            lemma_trimmed_grows(text.drop_last(), more);
        }
    }
}

proof fn lemma_entries_grow(turns: Seq<TurnText>, turn: TurnText, content: Seq<char>)
    ensures
        ({
            let more = TurnText { follow_ups: turn.follow_ups.push(content), ..turn };
            let before = HISTORY_PREAMBLE@ + entries_of(turns.push(turn));
            let after = HISTORY_PREAMBLE@ + entries_of(turns.push(more));
            after == before + ("  FollowUp: "@ + quoted(content) + "\n"@)
        }),
{
    let more = TurnText { follow_ups: turn.follow_ups.push(content), ..turn };
    let quotes = all_quoted(turn.follow_ups);
    assert(all_quoted(more.follow_ups) =~= quotes.push(quoted(content)));
    assert(quotes.push(quoted(content)).drop_last() =~= quotes);
    let line = "  FollowUp: "@ + quoted(content) + "\n"@;
    assert(follow_up_lines(quotes.push(quoted(content))) =~= follow_up_lines(quotes) + line);
    let said = quoted(turn.content);
    assert(entry_text(turn.id, said, quotes.push(quoted(content))) =~= entry_text(
        turn.id,
        said,
        quotes,
    ) + line);
    assert(turns.push(turn).drop_last() =~= turns);
    assert(turns.push(more).drop_last() =~= turns);
    let start = HISTORY_PREAMBLE@ + entries_of(turns);
    assert(HISTORY_PREAMBLE@ + entries_of(turns.push(turn)) =~= start + entry_text(
        turn.id,
        said,
        quotes,
    ));
    assert(HISTORY_PREAMBLE@ + entries_of(turns.push(more)) =~= start + entry_text(
        turn.id,
        said,
        quotes,
    ) + line);
}

/// A history is only added to: whatever happens next, the history so far is what the next one
/// begins with.
pub proof fn law_histories_are_only_added_to(events: Seq<EventText>, event: EventText)
    ensures
        history_text(turns_of(events)).is_prefix_of(history_text(turns_of(events.push(event)))),
{
    let before = turns_of(events);
    let after = turns_of(events.push(event));
    assert(events.push(event).drop_last() =~= events);
    let text = HISTORY_PREAMBLE@ + entries_of(before);
    match event.happening {
        Happening::UserPrompt(content) => {
            let turn = after.last();
            let entry = entry_text(turn.id, quoted(turn.content), all_quoted(turn.follow_ups));
            assert(after.drop_last() =~= before);
            assert(HISTORY_PREAMBLE@ + entries_of(after) =~= text + entry);
            lemma_trimmed_grows(text, entry);
        },
        Happening::FollowUp(_, content) => {
            if before.len() > 0 {
                let turns = before.drop_last();
                let turn = before.last();
                assert(turns.push(turn) =~= before);
                lemma_entries_grow(turns, turn, content);
                lemma_trimmed_grows(text, "  FollowUp: "@ + quoted(content) + "\n"@);
            } else {
                lemma_trimmed_grows(text, Seq::empty());
                assert(text + Seq::<char>::empty() =~= text);
            }
        },
        _ => {
            lemma_trimmed_grows(text, Seq::empty());
            assert(text + Seq::<char>::empty() =~= text);
        },
    }
}

proof fn lemma_zeros_in_front(digits: Seq<char>, zeros: nat)
    ensures
        number_of(repeated('0', zeros) + digits) == number_of(digits),
    decreases zeros + digits.len(),
{
    let all = repeated('0', zeros) + digits;
    if digits.len() > 0 {
        lemma_zeros_in_front(digits.drop_last(), zeros);
        assert(all.drop_last() =~= repeated('0', zeros) + digits.drop_last());
    } else if zeros > 0 {
        lemma_zeros_in_front(digits, (zeros - 1) as nat);
        assert(all.drop_last() =~= repeated('0', (zeros - 1) as nat) + digits);
        assert(all.last() == '0');
    } else {
        assert(all =~= digits);
    }
}

/// A turn goes by its number, written with eight digits at least.
pub proof fn law_turns_go_by_their_number(id: u64)
    ensures
        number_of(eight_digits(decimal(id as nat))) == id,
        eight_digits(decimal(id as nat)).len() >= 8,
        id >= 100000000 ==> eight_digits(decimal(id as nat)) == decimal(id as nat),
        id < 100000000 ==> eight_digits(decimal(id as nat)).len() == 8,
{
    let digits = decimal(id as nat);
    law_decimals_are_read_back(id as nat);
    if digits.len() < 8 {
        lemma_zeros_in_front(digits, (8 - digits.len()) as nat);
    }
    lemma_digit_count(id as nat);
}

proof fn lemma_digit_count(value: nat)
    ensures
        value < 100000000 <==> decimal(value).len() <= 8,
{
    reveal_with_fuel(decimal, 10);
    law_decimals_are_read_back(value / 100000000);
    let a = value / 10;
    let b = a / 10;
    let c = b / 10;
    let d = c / 10;
    let e = d / 10;
    let f = e / 10;
    let g = f / 10;
    assert(g / 10 == value / 100000000);
}

/// The turns of a history stand one below the other, in order, and so do the follow-ups of a turn
/// below its prompt.
pub proof fn law_turns_stand_in_order(first: Seq<TurnText>, second: Seq<TurnText>)
    ensures
        entries_of(first + second) == entries_of(first) + entries_of(second),
        forall|turn: TurnText, content: Seq<char>| #[trigger]
            entries_of(
                seq![TurnText { follow_ups: turn.follow_ups.push(content), ..turn }],
            ) == entries_of(seq![turn]) + "  FollowUp: "@ + quoted(content) + "\n"@,
        forall|turn: TurnText|
            turn.follow_ups.len() == 0 ==> #[trigger] entries_of(seq![turn]) == "\nturn-"@
                + eight_digits(decimal(turn.id as nat)) + "\n  User: "@ + quoted(turn.content)
                + "\n"@,
{
    lemma_entries_add_up(first, second);
    assert forall|turn: TurnText, content: Seq<char>| #[trigger]
        entries_of(seq![TurnText { follow_ups: turn.follow_ups.push(content), ..turn }])
            == entries_of(seq![turn]) + "  FollowUp: "@ + quoted(content) + "\n"@ by {
        let longer = TurnText { follow_ups: turn.follow_ups.push(content), ..turn };
        lemma_one_entry(turn);
        lemma_one_entry(longer);
        let lines = all_quoted(turn.follow_ups);
        assert(all_quoted(longer.follow_ups) =~= lines.push(quoted(content)));
        assert(lines.push(quoted(content)).drop_last() =~= lines);
        assert(entries_of(seq![longer]) =~= entries_of(seq![turn]) + "  FollowUp: "@ + quoted(
            content,
        ) + "\n"@);
    }
    assert forall|turn: TurnText|
        turn.follow_ups.len() == 0 implies #[trigger] entries_of(seq![turn]) == "\nturn-"@
        + eight_digits(decimal(turn.id as nat)) + "\n  User: "@ + quoted(turn.content) + "\n"@ by {
        lemma_one_entry(turn);
        assert(all_quoted(turn.follow_ups) =~= Seq::empty());
        assert(entries_of(seq![turn]) =~= "\nturn-"@ + eight_digits(decimal(turn.id as nat))
            + "\n  User: "@ + quoted(turn.content) + "\n"@);
    }
}

proof fn lemma_one_entry(turn: TurnText)
    ensures
        entries_of(seq![turn]) == entry_text(
            turn.id,
            quoted(turn.content),
            all_quoted(turn.follow_ups),
        ),
{
    let one = seq![turn];
    assert(one.drop_last() =~= Seq::empty());
    assert(entries_of(one.drop_last()) =~= Seq::empty());
    assert(entries_of(one) =~= entry_text(
        turn.id,
        quoted(turn.content),
        all_quoted(turn.follow_ups),
    ));
}

proof fn lemma_entries_add_up(first: Seq<TurnText>, second: Seq<TurnText>)
    ensures
        entries_of(first + second) == entries_of(first) + entries_of(second),
    decreases second.len(),
{
    let all = first + second;
    if second.len() == 0 {
        assert(all =~= first);
        assert(entries_of(first) + entries_of(second) =~= entries_of(first));
    } else {
        lemma_entries_add_up(first, second.drop_last());
        assert(all.drop_last() =~= first + second.drop_last());
        assert(entries_of(all) =~= entries_of(first) + entries_of(second));
    }
}

} // verus!
