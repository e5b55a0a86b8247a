//! The course that an upload takes, from beginning to end.

use vstd::prelude::*;

use crate::diag::archive_name;
use crate::diag::content_url;
use crate::diag::outcome_of;
use crate::diag::shortened;
use crate::diag::slashes_dropped;
use crate::diag::upload::is_expected;
use crate::diag::upload::step_of;
use crate::diag::upload::ActionText;
use crate::diag::upload::EventText;
use crate::diag::upload::PhaseText;
use crate::json::member_of;
use crate::json::Json;
use crate::text::trimmed;

verus! {

/// The phase after `events`, from `phase` on.
pub open spec fn phase_after(phase: PhaseText, events: Seq<EventText>) -> PhaseText
    decreases events.len(),
{
    if events.len() == 0 {
        phase
    } else {
        step_of(phase_after(phase, events.drop_last()), events.last()).0
    }
}

/// What is done after each of `events`, from `phase` on.
pub open spec fn course_of(phase: PhaseText, events: Seq<EventText>) -> Seq<ActionText>
    decreases events.len(),
{
    if events.len() == 0 {
        Seq::empty()
    } else {
        course_of(phase, events.drop_last()).push(
            step_of(phase_after(phase, events.drop_last()), events.last()).1,
        )
    }
}

proof fn lemma_course_step(phase: PhaseText, events: Seq<EventText>, event: EventText)
    ensures
        phase_after(phase, events.push(event)) == step_of(phase_after(phase, events), event).0,
        course_of(phase, events.push(event)) == course_of(phase, events).push(
            step_of(phase_after(phase, events), event).1,
        ),
{
    assert(events.push(event).drop_last() =~= events);
}

/// An upload of which every step goes well makes up a name, puts the archive of that name together,
/// asks for a token, sends the archive with it, and reports the name, the size and the address.
pub proof fn law_uploads_take_their_course(
    directory: Seq<char>,
    name: Seq<char>,
    bytes: u64,
    token: Seq<char>,
    stderr: Seq<char>,
    url: Seq<char>,
)
    requires
        bytes <= 100 * 1024 * 1024,
        trimmed(token).len() > 0,
    ensures
        course_of(
            PhaseText::Looking,
            seq![
                EventText::Looked(directory, true),
                EventText::Named(name),
                EventText::Archived(bytes),
                EventText::Asked { success: true, stdout: token, stderr },
                EventText::Answered(Ok(url)),
            ],
        ) == seq![
            ActionText::Name,
            ActionText::Archive(name),
            ActionText::Authenticate,
            ActionText::Send(name, trimmed(token)),
            ActionText::Finish { archive_name: name, archive_bytes: bytes, url },
        ],
{
    let start = PhaseText::Looking;
    let none = Seq::<EventText>::empty();
    let one = none.push(EventText::Looked(directory, true));
    let two = one.push(EventText::Named(name));
    let three = two.push(EventText::Archived(bytes));
    let four = three.push(EventText::Asked { success: true, stdout: token, stderr });
    let five = four.push(EventText::Answered(Ok(url)));
    lemma_course_step(start, none, EventText::Looked(directory, true));
    lemma_course_step(start, one, EventText::Named(name));
    lemma_course_step(start, two, EventText::Archived(bytes));
    lemma_course_step(
        start,
        three,
        EventText::Asked { success: true, stdout: token, stderr },
    );
    lemma_course_step(start, four, EventText::Answered(Ok(url)));
    assert(seq![
        EventText::Looked(directory, true),
        EventText::Named(name),
        EventText::Archived(bytes),
        EventText::Asked { success: true, stdout: token, stderr },
        EventText::Answered(Ok(url)),
    ] =~= five);
    assert(course_of(start, none) =~= Seq::<ActionText>::empty());
    assert(course_of(start, five) =~= seq![
        ActionText::Name,
        ActionText::Archive(name),
        ActionText::Authenticate,
        ActionText::Send(name, trimmed(token)),
        ActionText::Finish { archive_name: name, archive_bytes: bytes, url },
    ]);
}

/// A step that fails ends the upload, and its reason is told.
pub proof fn law_failures_end_the_upload(phase: PhaseText, reason: Seq<char>)
    requires
        is_expected(phase, EventText::Failed(reason)),
    ensures
        step_of(phase, EventText::Failed(reason)) == (PhaseText::Ended, ActionText::Fail(reason)),
{
}

/// Archives of more than 100 MiB are not sent, and nobody is asked for a token.
pub proof fn law_large_archives_are_not_sent(name: Seq<char>, bytes: u64)
    ensures
        bytes > 100 * 1024 * 1024 <==> step_of(
            PhaseText::Archiving(name),
            EventText::Archived(bytes),
        ).1 is Fail,
        bytes <= 100 * 1024 * 1024 <==> step_of(
            PhaseText::Archiving(name),
            EventText::Archived(bytes),
        ).1 is Authenticate,
{
}

/// An answer of status 201 with an address comes to that address, whatever else it holds.
pub proof fn law_answers_give_the_address(
    members: Map<Seq<char>, Json>,
    content: Map<Seq<char>, Json>,
    url: Seq<char>,
    status_text: Seq<char>,
    fault: Seq<char>,
    body: Seq<char>,
)
    ensures
        ({
            let answer = Json::Object(
                members.insert(
                    "content"@,
                    Json::Object(content.insert("html_url"@, Json::Text(url))),
                ),
            );
            outcome_of(201, status_text, Some(answer), fault, body) == Ok::<Seq<char>, Seq<char>>(
                url,
            )
        }),
{
    let inner = Json::Object(content.insert("html_url"@, Json::Text(url)));
    let answer = Json::Object(members.insert("content"@, inner));
    assert(member_of(answer, "content"@) == Some(inner));
    assert(content_url(answer) == Some(url));
}

/// An answer of any other status fails, and tells the status and the message of the answer.
pub proof fn law_refusals_give_the_reason(
    members: Map<Seq<char>, Json>,
    message: Seq<char>,
    status: u16,
    status_text: Seq<char>,
    fault: Seq<char>,
    body: Seq<char>,
)
    requires
        status != 201,
    ensures
        outcome_of(
            status,
            status_text,
            Some(Json::Object(members.insert("message"@, Json::Text(message)))),
            fault,
            body,
        ) == Err::<Seq<char>, Seq<char>>(
            "GitHub diagnostic upload failed with HTTP "@ + status_text + ": "@ + message,
        ),
        body.len() <= 500 ==> outcome_of(status, status_text, None, fault, body) == Err::<
            Seq<char>,
            Seq<char>,
        >("GitHub diagnostic upload failed with HTTP "@ + status_text + ": "@ + body),
{
    let answer = Json::Object(members.insert("message"@, Json::Text(message)));
    assert(member_of(answer, "message"@) == Some(Json::Text(message)));
}

/// What is shortened to `limit` characters begins as it did and is marked by an ellipsis, and what
/// is short enough stays as it is.
pub proof fn law_long_texts_are_cut(text: Seq<char>, rest: Seq<char>, limit: int)
    requires
        text.len() == limit,
    ensures
        shortened(text, limit) == text,
        rest.len() > 0 ==> shortened(text + rest, limit) == text + "…"@,
{
    assert((text + rest).take(limit) =~= text);
}

/// However many slashes end the address of a service, they are dropped, and no others.
pub proof fn law_last_slashes_are_dropped(address: Seq<char>, slashes: nat)
    requires
        address.len() == 0 || address.last() != '/',
    ensures
        slashes_dropped(address + Seq::new(slashes, |i: int| '/')) == address,
    decreases slashes,
{
    let all = address + Seq::new(slashes, |i: int| '/');
    if slashes == 0 {
        assert(all =~= address);
    } else {
        law_last_slashes_are_dropped(address, (slashes - 1) as nat);
        assert(all.drop_last() =~= address + Seq::new((slashes - 1) as nat, |i: int| '/'));
        assert(all.last() == '/');
    }
}

/// The time and the digits of an archive can be told from its name: two archives go by the same name
/// only where both agree, provided that the digits are as many.
pub proof fn law_archives_are_told_apart(
    timestamp: Seq<char>,
    unique: Seq<char>,
    other_timestamp: Seq<char>,
    other_unique: Seq<char>,
)
    requires
        unique.len() == other_unique.len(),
        archive_name(timestamp, unique) == archive_name(other_timestamp, other_unique),
    ensures
        timestamp == other_timestamp,
        unique == other_unique,
{
    let name = archive_name(timestamp, unique);
    let other = archive_name(other_timestamp, other_unique);
    let start = "me-diag-upload-"@.len() as int;
    let middle = start + timestamp.len();
    let end = middle + "-"@.len() + unique.len();
    assert(name.len() == other.len());
    assert(name.subrange(start, middle) =~= timestamp);
    assert(other.subrange(start, middle) =~= other_timestamp);
    assert(name.subrange(middle + "-"@.len(), end as int) =~= unique);
    assert(other.subrange(middle + "-"@.len(), end as int) =~= other_unique);
}

} // verus!
