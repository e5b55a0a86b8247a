//! The course that an installation takes, from beginning to end.

use vstd::prelude::*;

use crate::python_runtime::install::step_of;
use crate::python_runtime::install::ActionText;
use crate::python_runtime::install::EventText;
use crate::python_runtime::install::PhaseText;
use crate::python_runtime::is_python_path;
use crate::python_runtime::marker_content;
use crate::python_runtime::PathPart;

verus! {

/// The phase after `events`, from `phase` on.
pub open spec fn phase_after(phase: PhaseText, events: Seq<EventText>) -> PhaseText
    decreases events.len(),
{
    if events.len() == 0 {
        phase
    } else {
        step_of(phase_after(phase, events.drop_last()), events.last()).0
    }
}

/// What is done after each of `events`, from `phase` on.
pub open spec fn course_of(phase: PhaseText, events: Seq<EventText>) -> Seq<ActionText>
    decreases events.len(),
{
    if events.len() == 0 {
        Seq::empty()
    } else {
        course_of(phase, events.drop_last()).push(
            step_of(phase_after(phase, events.drop_last()), events.last()).1,
        )
    }
}

proof fn lemma_course_step(phase: PhaseText, events: Seq<EventText>, event: EventText)
    ensures
        phase_after(phase, events.push(event)) == step_of(phase_after(phase, events), event).0,
        course_of(phase, events.push(event)) == course_of(phase, events).push(
            step_of(phase_after(phase, events), event).1,
        ),
{
    assert(events.push(event).drop_last() =~= events);
}

/// A runtime that can be used is used as it is: nothing is removed or unpacked.
pub proof fn law_valid_runtimes_stay(present: bool)
    ensures
        step_of(PhaseText::Checking, EventText::Checked { valid: true, present }) == (
            PhaseText::Ended,
            ActionText::Ready,
        ),
{
}

/// What is in the place of the runtime and cannot be used is removed before anything is unpacked,
/// and where there is nothing in its place nothing is removed.
pub proof fn law_invalid_runtimes_make_room()
    ensures
        course_of(
            PhaseText::Checking,
            seq![EventText::Checked { valid: false, present: true }, EventText::Done],
        ) == seq![ActionText::RemoveRuntime, ActionText::CreateStaging],
        course_of(
            PhaseText::Checking,
            seq![EventText::Checked { valid: false, present: false }],
        ) == seq![ActionText::CreateStaging],
{
    let start = PhaseText::Checking;
    let none = Seq::<EventText>::empty();
    let there = EventText::Checked { valid: false, present: true };
    let missing = EventText::Checked { valid: false, present: false };
    lemma_course_step(start, none, there);
    lemma_course_step(start, none.push(there), EventText::Done);
    lemma_course_step(start, none, missing);
    assert(seq![there, EventText::Done] =~= none.push(there).push(EventText::Done));
    assert(seq![missing] =~= none.push(missing));
    assert(course_of(start, none) =~= Seq::<ActionText>::empty());
    assert(course_of(start, seq![there, EventText::Done]) =~= seq![
        ActionText::RemoveRuntime,
        ActionText::CreateStaging,
    ]);
    assert(course_of(start, seq![missing]) =~= seq![ActionText::CreateStaging]);
}

/// Once there is a directory for it, the archive is unpacked, the interpreter is looked for, the
/// marker is written, the runtime is moved to its place, the directory is removed, and the runtime is
/// used if it is valid by then. Whether the directory can be removed makes no difference.
pub proof fn law_installations_take_their_course(cleared: EventText, present: bool)
    requires
        cleared is Done || cleared is Failed,
    ensures
        course_of(
            PhaseText::Creating,
            seq![
                EventText::Done,
                EventText::Done,
                EventText::Found(true),
                EventText::Done,
                EventText::Done,
                cleared,
                EventText::Checked { valid: true, present },
            ],
        ) == seq![
            ActionText::Extract,
            ActionText::FindInterpreter,
            ActionText::WriteMarker,
            ActionText::Move,
            ActionText::RemoveStaging,
            ActionText::Check,
            ActionText::Ready,
        ],
{
    let start = PhaseText::Creating;
    let done = EventText::Done;
    let found = EventText::Found(true);
    let checked = EventText::Checked { valid: true, present };
    let none = Seq::<EventText>::empty();
    let one = none.push(done);
    let two = one.push(done);
    let three = two.push(found);
    let four = three.push(done);
    let five = four.push(done);
    let six = five.push(cleared);
    lemma_course_step(start, none, done);
    lemma_course_step(start, one, done);
    lemma_course_step(start, two, found);
    lemma_course_step(start, three, done);
    lemma_course_step(start, four, done);
    lemma_course_step(start, five, cleared);
    lemma_course_step(start, six, checked);
    assert(seq![done, done, found, done, done, cleared, checked] =~= six.push(checked));
    assert(course_of(start, none) =~= Seq::<ActionText>::empty());
    assert(course_of(start, six.push(checked)) =~= seq![
        ActionText::Extract,
        ActionText::FindInterpreter,
        ActionText::WriteMarker,
        ActionText::Move,
        ActionText::RemoveStaging,
        ActionText::Check,
        ActionText::Ready,
    ]);
}

/// Where unpacking the archive or writing the marker fails, the directory is removed and the reason
/// is told, whether or not the directory can be removed.
pub proof fn law_failures_are_cleared_and_told(
    phase: PhaseText,
    reason: Seq<char>,
    cleared: EventText,
)
    requires
        phase is Extracting || phase is Marking,
        cleared is Done || cleared is Failed,
    ensures
        course_of(phase, seq![EventText::Failed(reason), cleared]) == seq![
            ActionText::RemoveStaging,
            ActionText::Fail(reason),
        ],
        phase_after(phase, seq![EventText::Failed(reason), cleared]) == PhaseText::Ended,
{
    let none = Seq::<EventText>::empty();
    let failed = EventText::Failed(reason);
    lemma_course_step(phase, none, failed);
    lemma_course_step(phase, none.push(failed), cleared);
    assert(seq![failed, cleared] =~= none.push(failed).push(cleared));
    assert(course_of(phase, none) =~= Seq::<ActionText>::empty());
    assert(course_of(phase, seq![failed, cleared]) =~= seq![
        ActionText::RemoveStaging,
        ActionText::Fail(reason),
    ]);
}

/// Where there is nothing to be cleared yet, a failure is told at once.
pub proof fn law_early_failures_are_told(phase: PhaseText, reason: Seq<char>)
    requires
        phase is Removing || phase is Creating,
    ensures
        step_of(phase, EventText::Failed(reason)) == (PhaseText::Ended, ActionText::Fail(reason)),
{
}

/// A runtime that cannot be moved to its place counts as installed where there is a valid one in its
/// place by then; where there is not, the reason why it could not be moved is told.
pub proof fn law_another_installation_may_have_come_first(
    reason: Seq<char>,
    valid: bool,
    present: bool,
    cleared: EventText,
)
    requires
        cleared is Done || cleared is Failed,
    ensures
        course_of(
            PhaseText::Moving,
            seq![EventText::Failed(reason), EventText::Checked { valid, present }, cleared],
        ) == seq![
            ActionText::Check,
            ActionText::RemoveStaging,
            if valid {
                ActionText::Check
            } else {
                ActionText::Fail(reason)
            },
        ],
{
    let start = PhaseText::Moving;
    let none = Seq::<EventText>::empty();
    let failed = EventText::Failed(reason);
    let checked = EventText::Checked { valid, present };
    lemma_course_step(start, none, failed);
    lemma_course_step(start, none.push(failed), checked);
    lemma_course_step(start, none.push(failed).push(checked), cleared);
    assert(seq![failed, checked, cleared] =~= none.push(failed).push(checked).push(cleared));
    assert(course_of(start, none) =~= Seq::<ActionText>::empty());
    assert(course_of(start, seq![failed, checked, cleared]) =~= seq![
        ActionText::Check,
        ActionText::RemoveStaging,
        if valid {
            ActionText::Check
        } else {
            ActionText::Fail(reason)
        },
    ]);
}

/// An archive without an interpreter is not installed, and neither stays a runtime that is not valid
/// once it is in its place.
pub proof fn law_useless_runtimes_are_told(present: bool, cleared: EventText)
    requires
        cleared is Done || cleared is Failed,
    ensures
        course_of(PhaseText::Finding, seq![EventText::Found(false), cleared]) == seq![
            ActionText::RemoveStaging,
            ActionText::Fail("embedded Python archive has no target interpreter"@),
        ],
        course_of(
            PhaseText::Validating,
            seq![EventText::Checked { valid: false, present }, cleared],
        ) == seq![
            ActionText::RemoveRuntime,
            ActionText::Fail("embedded Python 3.12 failed its post-install validation"@),
        ],
{
    let none = Seq::<EventText>::empty();
    let lost = EventText::Found(false);
    let checked = EventText::Checked { valid: false, present };
    lemma_course_step(PhaseText::Finding, none, lost);
    lemma_course_step(PhaseText::Finding, none.push(lost), cleared);
    lemma_course_step(PhaseText::Validating, none, checked);
    lemma_course_step(PhaseText::Validating, none.push(checked), cleared);
    assert(seq![lost, cleared] =~= none.push(lost).push(cleared));
    assert(seq![checked, cleared] =~= none.push(checked).push(cleared));
    assert(course_of(PhaseText::Finding, none) =~= Seq::<ActionText>::empty());
    assert(course_of(PhaseText::Validating, none) =~= Seq::<ActionText>::empty());
    assert(course_of(PhaseText::Finding, seq![lost, cleared]) =~= seq![
        ActionText::RemoveStaging,
        ActionText::Fail("embedded Python archive has no target interpreter"@),
    ]);
    assert(course_of(PhaseText::Validating, seq![checked, cleared]) =~= seq![
        ActionText::RemoveRuntime,
        ActionText::Fail("embedded Python 3.12 failed its post-install validation"@),
    ]);
}

/// A path may be unpacked if it is the directory of the archive or goes on from a path that may be by
/// a name; a part that is not a name spoils it wherever it stands, and so does another beginning.
pub proof fn law_paths_stay_below_the_archive(parts: Seq<PathPart>, name: String, at: int)
    ensures
        name@ == "python"@ ==> is_python_path(seq![PathPart::Normal(name)]),
        is_python_path(parts) ==> is_python_path(parts.push(PathPart::Normal(name))),
        0 <= at < parts.len() && parts[at] is Special ==> !is_python_path(parts),
        parts.len() > 0 && name@ != "python"@ && parts[0] == PathPart::Normal(name)
            ==> !is_python_path(parts),
        !is_python_path(Seq::empty()),
{
    let longer = parts.push(PathPart::Normal(name));
    if is_python_path(parts) {
        assert(longer[0] == parts[0]);
        assert forall|i: int| 0 <= i < longer.len() implies (#[trigger] longer[i]) is Normal by {
            if i < parts.len() {
                assert(parts[i] is Normal);
            }
        }
    }
}

/// Two runtimes have the same marker only where both their names and their checksums are the same,
/// provided that neither name has a line feed in it.
pub proof fn law_markers_tell_runtimes_apart(
    runtime: Seq<char>,
    checksum: Seq<char>,
    other: Seq<char>,
    other_checksum: Seq<char>,
)
    requires
        !runtime.contains('\n'),
        !other.contains('\n'),
        marker_content(runtime, checksum) == marker_content(other, other_checksum),
    ensures
        runtime == other,
        checksum == other_checksum,
{
    reveal_strlit("\n");
    let marker = marker_content(runtime, checksum);
    assert(marker[runtime.len() as int] == '\n');
    assert(marker[other.len() as int] == '\n') by {
        assert(marker_content(other, other_checksum)[other.len() as int] == '\n');
    }
    if runtime.len() < other.len() {
        assert(other[runtime.len() as int] == marker[runtime.len() as int]);
    } else if other.len() < runtime.len() {
        assert(runtime[other.len() as int] == marker[other.len() as int]);
    }
    let size = runtime.len() as int;
    assert(marker.take(size) =~= runtime);
    assert(marker_content(other, other_checksum).take(size) =~= other);
    assert(marker.subrange(size + 1, marker.len() - 1) =~= checksum);
    assert(marker_content(other, other_checksum).subrange(size + 1, marker.len() - 1)
        =~= other_checksum);
}

} // verus!
