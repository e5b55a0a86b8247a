//! The course of an installation: what comes next, given what has come of the last step.

use vstd::prelude::*;

use crate::python_runtime::INVALID_INSTALL;
use crate::python_runtime::MISSING_INTERPRETER;

verus! {

/// How far an installation has come.
#[derive(Debug)]
pub enum InstallPhase {
    /// It is being found out whether the runtime that there is can be used.
    Checking,
    /// What there is in its place is being removed.
    Removing,
    /// A directory is being made to unpack the archive in.
    Creating,
    /// The archive is being unpacked.
    Extracting,
    /// The interpreter is being looked for.
    Finding,
    /// The marker is being written.
    Marking,
    /// The runtime is being moved to its place.
    Moving,
    /// It could not be moved, for a reason; there may be a valid one in its place by now.
    Rechecking(String),
    /// The directory is being removed, after all went well or for a reason why it did not.
    Clearing(Option<String>),
    /// It is being found out whether the runtime that was installed can be used.
    Validating,
    /// It cannot, and is being removed.
    Discarding,
    /// The installation has ended, well or not.
    Ended,
}

/// What has come of the last step.
#[derive(Debug)]
pub enum InstallEvent {
    /// Whether the runtime can be used, and whether there is anything in its place.
    Checked { valid: bool, present: bool },
    /// Whether the interpreter is there.
    Found(bool),
    /// The step is done.
    Done,
    /// The step has failed, for a reason.
    Failed(String),
}

/// What comes next.
#[derive(Debug)]
pub enum InstallAction {
    /// Find out whether the runtime can be used.
    Check,
    /// Remove what there is in the place of the runtime.
    RemoveRuntime,
    /// Make a directory to unpack the archive in.
    CreateStaging,
    /// Unpack the archive.
    Extract,
    /// Look for the interpreter.
    FindInterpreter,
    /// Write the marker.
    WriteMarker,
    /// Move the runtime to its place.
    Move,
    /// Remove the directory.
    RemoveStaging,
    /// The runtime can be used.
    Ready,
    /// There is no runtime: say why.
    Fail(String),
}

/// The model of a phase.
#[verifier::ext_equal]
pub enum PhaseText {
    Checking,
    Removing,
    Creating,
    Extracting,
    Finding,
    Marking,
    Moving,
    Rechecking(Seq<char>),
    Clearing(Option<Seq<char>>),
    Validating,
    Discarding,
    Ended,
}

impl View for InstallPhase {
    type V = PhaseText;

    open spec fn view(&self) -> PhaseText {
        match self {
            InstallPhase::Checking => PhaseText::Checking,
            InstallPhase::Removing => PhaseText::Removing,
            InstallPhase::Creating => PhaseText::Creating,
            InstallPhase::Extracting => PhaseText::Extracting,
            InstallPhase::Finding => PhaseText::Finding,
            InstallPhase::Marking => PhaseText::Marking,
            InstallPhase::Moving => PhaseText::Moving,
            InstallPhase::Rechecking(reason) => PhaseText::Rechecking(reason@),
            InstallPhase::Clearing(Some(reason)) => PhaseText::Clearing(Some(reason@)),
            InstallPhase::Clearing(None) => PhaseText::Clearing(None),
            InstallPhase::Validating => PhaseText::Validating,
            InstallPhase::Discarding => PhaseText::Discarding,
            InstallPhase::Ended => PhaseText::Ended,
        }
    }
}

/// The model of an event.
#[verifier::ext_equal]
pub enum EventText {
    Checked { valid: bool, present: bool },
    Found(bool),
    Done,
    Failed(Seq<char>),
}

impl View for InstallEvent {
    type V = EventText;

    open spec fn view(&self) -> EventText {
        match self {
            InstallEvent::Checked { valid, present } => EventText::Checked {
                valid: *valid,
                present: *present,
            },
            InstallEvent::Found(found) => EventText::Found(*found),
            InstallEvent::Done => EventText::Done,
            InstallEvent::Failed(reason) => EventText::Failed(reason@),
        }
    }
}

/// The model of an action.
#[verifier::ext_equal]
pub enum ActionText {
    Check,
    RemoveRuntime,
    CreateStaging,
    Extract,
    FindInterpreter,
    WriteMarker,
    Move,
    RemoveStaging,
    Ready,
    Fail(Seq<char>),
}

impl View for InstallAction {
    type V = ActionText;

    open spec fn view(&self) -> ActionText {
        match self {
            InstallAction::Check => ActionText::Check,
            InstallAction::RemoveRuntime => ActionText::RemoveRuntime,
            InstallAction::CreateStaging => ActionText::CreateStaging,
            InstallAction::Extract => ActionText::Extract,
            InstallAction::FindInterpreter => ActionText::FindInterpreter,
            InstallAction::WriteMarker => ActionText::WriteMarker,
            InstallAction::Move => ActionText::Move,
            InstallAction::RemoveStaging => ActionText::RemoveStaging,
            InstallAction::Ready => ActionText::Ready,
            InstallAction::Fail(reason) => ActionText::Fail(reason@),
        }
    }
}

/// Whether `event` can come of what was done in `phase`.
pub open spec fn is_expected(phase: PhaseText, event: EventText) -> bool {
    match phase {
        PhaseText::Checking => event is Checked,
        PhaseText::Rechecking(_) => event is Checked,
        PhaseText::Validating => event is Checked,
        PhaseText::Finding => event is Found,
        PhaseText::Ended => false,
        _ => event is Done || event is Failed,
    }
}

/// The phase that follows `phase` after `event`, and what comes next. Once there is a directory
/// for the archive, it is removed whatever happens. An event that cannot come would end the
/// installation without a word.
pub open spec fn step_of(phase: PhaseText, event: EventText) -> (PhaseText, ActionText) {
    match (phase, event) {
        (PhaseText::Checking, EventText::Checked { valid, present }) => if valid {
            (PhaseText::Ended, ActionText::Ready)
        } else if present {
            (PhaseText::Removing, ActionText::RemoveRuntime)
        } else {
            (PhaseText::Creating, ActionText::CreateStaging)
        },
        (PhaseText::Removing, EventText::Done) => (PhaseText::Creating, ActionText::CreateStaging),
        (PhaseText::Removing, EventText::Failed(reason)) => (
            PhaseText::Ended,
            ActionText::Fail(reason),
        ),
        (PhaseText::Creating, EventText::Done) => (PhaseText::Extracting, ActionText::Extract),
        (PhaseText::Creating, EventText::Failed(reason)) => (
            PhaseText::Ended,
            ActionText::Fail(reason),
        ),
        (PhaseText::Extracting, EventText::Done) => (
            PhaseText::Finding,
            ActionText::FindInterpreter,
        ),
        (PhaseText::Finding, EventText::Found(true)) => (
            PhaseText::Marking,
            ActionText::WriteMarker,
        ),
        (PhaseText::Finding, _) => (
            PhaseText::Clearing(Some(MISSING_INTERPRETER@)),
            ActionText::RemoveStaging,
        ),
        (PhaseText::Marking, EventText::Done) => (PhaseText::Moving, ActionText::Move),
        (PhaseText::Moving, EventText::Done) => (
            PhaseText::Clearing(None),
            ActionText::RemoveStaging,
        ),
        (PhaseText::Moving, EventText::Failed(reason)) => (
            PhaseText::Rechecking(reason),
            ActionText::Check,
        ),
        (PhaseText::Rechecking(reason), EventText::Checked { valid, .. }) => (
            PhaseText::Clearing(
                if valid {
                    None
                } else {
                    Some(reason)
                },
            ),
            ActionText::RemoveStaging,
        ),
        (PhaseText::Clearing(Some(reason)), _) => (PhaseText::Ended, ActionText::Fail(reason)),
        (PhaseText::Clearing(None), _) => (PhaseText::Validating, ActionText::Check),
        (PhaseText::Validating, EventText::Checked { valid, .. }) => if valid {
            (PhaseText::Ended, ActionText::Ready)
        } else {
            (PhaseText::Discarding, ActionText::RemoveRuntime)
        },
        (PhaseText::Discarding, _) => (PhaseText::Ended, ActionText::Fail(INVALID_INSTALL@)),
        (_, EventText::Failed(reason)) => (
            PhaseText::Clearing(Some(reason)),
            ActionText::RemoveStaging,
        ),
        _ => (PhaseText::Ended, ActionText::Fail(Seq::empty())),
    }
}

/// The course of an installation. The first thing to do is to find out whether the runtime can be
/// used.
#[derive(Debug)]
pub struct InstallRun {
    pub phase: InstallPhase,
}

impl InstallRun {
    /// Starts an installation.
    pub fn start() -> (r: Self)
        ensures
            r.phase@ is Checking,
    {
        InstallRun { phase: InstallPhase::Checking }
    }

    /// What comes next, given what has come of the last step.
    pub fn step(&mut self, event: InstallEvent) -> (r: InstallAction)
        requires
            is_expected(old(self).phase@, event@),
        ensures
            (final(self).phase@, r@) == step_of(old(self).phase@, event@),
    {
        let mut phase = InstallPhase::Ended;
        core::mem::swap(&mut self.phase, &mut phase);
        let (next, action) = match (phase, event) {
            (InstallPhase::Checking, InstallEvent::Checked { valid, present }) => if valid {
                (InstallPhase::Ended, InstallAction::Ready)
            } else if present {
                (InstallPhase::Removing, InstallAction::RemoveRuntime)
            } else {
                (InstallPhase::Creating, InstallAction::CreateStaging)
            },
            (InstallPhase::Removing, InstallEvent::Done) => (
                InstallPhase::Creating,
                InstallAction::CreateStaging,
            ),
            (InstallPhase::Removing, InstallEvent::Failed(reason)) => (
                InstallPhase::Ended,
                InstallAction::Fail(reason),
            ),
            (InstallPhase::Creating, InstallEvent::Done) => (
                InstallPhase::Extracting,
                InstallAction::Extract,
            ),
            (InstallPhase::Creating, InstallEvent::Failed(reason)) => (
                InstallPhase::Ended,
                InstallAction::Fail(reason),
            ),
            (InstallPhase::Extracting, InstallEvent::Done) => (
                InstallPhase::Finding,
                InstallAction::FindInterpreter,
            ),
            (InstallPhase::Finding, InstallEvent::Found(true)) => (
                InstallPhase::Marking,
                InstallAction::WriteMarker,
            ),
            (InstallPhase::Finding, _) => (
                InstallPhase::Clearing(Some(MISSING_INTERPRETER.to_owned())),
                InstallAction::RemoveStaging,
            ),
            (InstallPhase::Marking, InstallEvent::Done) => (
                InstallPhase::Moving,
                InstallAction::Move,
            ),
            (InstallPhase::Moving, InstallEvent::Done) => (
                InstallPhase::Clearing(None),
                InstallAction::RemoveStaging,
            ),
            (InstallPhase::Moving, InstallEvent::Failed(reason)) => (
                InstallPhase::Rechecking(reason),
                InstallAction::Check,
            ),
            (InstallPhase::Rechecking(reason), InstallEvent::Checked { valid, .. }) => (
                InstallPhase::Clearing(
                    if valid {
                        None
                    } else {
                        Some(reason)
                    },
                ),
                InstallAction::RemoveStaging,
            ),
            (InstallPhase::Clearing(Some(reason)), _) => (
                InstallPhase::Ended,
                InstallAction::Fail(reason),
            ),
            (InstallPhase::Clearing(None), _) => (InstallPhase::Validating, InstallAction::Check),
            (InstallPhase::Validating, InstallEvent::Checked { valid, .. }) => if valid {
                (InstallPhase::Ended, InstallAction::Ready)
            } else {
                (InstallPhase::Discarding, InstallAction::RemoveRuntime)
            },
            (InstallPhase::Discarding, _) => (
                InstallPhase::Ended,
                InstallAction::Fail(INVALID_INSTALL.to_owned()),
            ),
            (_, InstallEvent::Failed(reason)) => (
                InstallPhase::Clearing(Some(reason)),
                InstallAction::RemoveStaging,
            ),
            (_, _) => (InstallPhase::Ended, InstallAction::Fail(String::new())),
        };
        self.phase = next;
        action
    }
}

/// Whether there is a directory that the archive is unpacked in, in `phase`.
pub open spec fn has_staging(phase: PhaseText) -> bool {
    ||| phase is Extracting
    ||| phase is Finding
    ||| phase is Marking
    ||| phase is Moving
    ||| phase is Rechecking
}

/// A runtime is said to be ready only where it has just been found to be valid.
pub proof fn law_ready_is_valid(phase: PhaseText, event: EventText)
    requires
        is_expected(phase, event),
        step_of(phase, event).1 is Ready,
    ensures
        event matches EventText::Checked { valid, .. } && valid,
{
}

/// Once there is a directory for the archive, the installation neither ends nor goes on without
/// it before it has been removed.
pub proof fn law_staging_is_removed(phase: PhaseText, event: EventText)
    requires
        is_expected(phase, event),
        has_staging(phase),
    ensures
        step_of(phase, event).1 is RemoveStaging || has_staging(step_of(phase, event).0),
        !(step_of(phase, event).0 is Ended),
{
}

/// A runtime that turns out not to be valid after it has been installed does not stay.
pub proof fn law_invalid_runtime_is_removed(event: EventText)
    requires
        is_expected(PhaseText::Validating, event),
    ensures
        step_of(PhaseText::Validating, event).1 is Ready || step_of(
            PhaseText::Validating,
            event,
        ).1 is RemoveRuntime,
{
}

/// An installation comes to its end: every step leads to a later phase.
pub proof fn law_installations_end(phase: PhaseText, event: EventText)
    requires
        is_expected(phase, event),
    ensures
        phase_number(phase) < phase_number(step_of(phase, event).0),
{
}

/// The place of `phase` in the course of an installation.
pub open spec fn phase_number(phase: PhaseText) -> int {
    match phase {
        PhaseText::Checking => 0,
        PhaseText::Removing => 1,
        PhaseText::Creating => 2,
        PhaseText::Extracting => 3,
        PhaseText::Finding => 4,
        PhaseText::Marking => 5,
        PhaseText::Moving => 6,
        PhaseText::Rechecking(_) => 7,
        PhaseText::Clearing(_) => 8,
        PhaseText::Validating => 9,
        PhaseText::Discarding => 10,
        PhaseText::Ended => 11,
    }
}

} // verus!
