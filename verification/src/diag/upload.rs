//! The course of an upload: what comes next, given what has come of the last step.

use vstd::prelude::*;

use crate::diag::check_archive_size;
use crate::diag::login_failure;
use crate::diag::login_text;
use crate::diag::missing_directory_message;
use crate::diag::missing_directory_text;
use crate::diag::outcome_of;
use crate::diag::oversize_text;
use crate::diag::read_token;
use crate::diag::upload_outcome;
use crate::diag::DiagnosticUpload;
use crate::diag::EMPTY_TOKEN;
use crate::diag::MAX_GITHUB_FILE_BYTES;
use crate::json::json_fault;
use crate::json::parsed_json;
use crate::text::trimmed;

verus! {

/// How far an upload has come.
#[derive(Debug)]
pub enum UploadPhase {
    /// It is being found out whether there is anything to send.
    Looking,
    /// A name is being made up for the archive.
    Naming,
    /// The archive of a name is being put together.
    Archiving(String),
    /// The archive of a name has a number of bytes; somebody has to be logged in.
    Authenticating(String, u64),
    /// The archive of a name and a number of bytes is being sent.
    Sending(String, u64),
    /// The upload has ended, well or not.
    Ended,
}

/// What has come of the last step.
#[derive(Debug)]
pub enum UploadEvent {
    /// Whether there is a directory at a path.
    Looked(String, bool),
    /// The name of the archive.
    Named(String),
    /// How many bytes the archive has.
    Archived(u64),
    /// What asking for a token came to: whether it went well, and what was printed.
    Asked { success: bool, stdout: String, stderr: String },
    /// The answer to the request: its status, in numbers and in words, and its body.
    Answered { status: u16, status_text: String, body: String },
    /// The step has failed, for a reason.
    Failed(String),
}

/// What comes next.
#[derive(Debug)]
pub enum UploadAction {
    /// Make up a name for the archive.
    Name,
    /// Put the archive of a name together.
    Archive(String),
    /// Ask for a token.
    Authenticate,
    /// Send the archive of a name, with a token.
    Send(String, String),
    /// The archive has been sent.
    Finish(DiagnosticUpload),
    /// It has not: say why.
    Fail(String),
}

/// The model of a phase.
#[verifier::ext_equal]
pub enum PhaseText {
    Looking,
    Naming,
    Archiving(Seq<char>),
    Authenticating(Seq<char>, u64),
    Sending(Seq<char>, u64),
    Ended,
}

impl View for UploadPhase {
    type V = PhaseText;

    open spec fn view(&self) -> PhaseText {
        match self {
            UploadPhase::Looking => PhaseText::Looking,
            UploadPhase::Naming => PhaseText::Naming,
            UploadPhase::Archiving(name) => PhaseText::Archiving(name@),
            UploadPhase::Authenticating(name, bytes) => PhaseText::Authenticating(name@, *bytes),
            UploadPhase::Sending(name, bytes) => PhaseText::Sending(name@, *bytes),
            UploadPhase::Ended => PhaseText::Ended,
        }
    }
}

/// The model of an event. That of an answer holds what it comes to.
#[verifier::ext_equal]
pub enum EventText {
    Looked(Seq<char>, bool),
    Named(Seq<char>),
    Archived(u64),
    Asked { success: bool, stdout: Seq<char>, stderr: Seq<char> },
    Answered(Result<Seq<char>, Seq<char>>),
    Failed(Seq<char>),
}

impl View for UploadEvent {
    type V = EventText;

    open spec fn view(&self) -> EventText {
        match self {
            UploadEvent::Looked(directory, found) => EventText::Looked(directory@, *found),
            UploadEvent::Named(name) => EventText::Named(name@),
            UploadEvent::Archived(bytes) => EventText::Archived(*bytes),
            UploadEvent::Asked { success, stdout, stderr } => EventText::Asked {
                success: *success,
                stdout: stdout@,
                stderr: stderr@,
            },
            UploadEvent::Answered { status, status_text, body } => EventText::Answered(
                outcome_of(
                    *status,
                    status_text@,
                    parsed_json(body@),
                    json_fault(body@),
                    body@,
                ),
            ),
            UploadEvent::Failed(reason) => EventText::Failed(reason@),
        }
    }
}

/// The model of an action.
#[verifier::ext_equal]
pub enum ActionText {
    Name,
    Archive(Seq<char>),
    Authenticate,
    Send(Seq<char>, Seq<char>),
    Finish { archive_name: Seq<char>, archive_bytes: u64, url: Seq<char> },
    Fail(Seq<char>),
}

impl View for UploadAction {
    type V = ActionText;

    open spec fn view(&self) -> ActionText {
        match self {
            UploadAction::Name => ActionText::Name,
            UploadAction::Archive(name) => ActionText::Archive(name@),
            UploadAction::Authenticate => ActionText::Authenticate,
            UploadAction::Send(name, token) => ActionText::Send(name@, token@),
            UploadAction::Finish(upload) => ActionText::Finish {
                archive_name: upload.archive_name@,
                archive_bytes: upload.archive_bytes,
                url: upload.url@,
            },
            UploadAction::Fail(reason) => ActionText::Fail(reason@),
        }
    }
}

/// Whether `event` can come of what was done in `phase`.
pub open spec fn is_expected(phase: PhaseText, event: EventText) -> bool {
    match phase {
        PhaseText::Looking => event is Looked,
        PhaseText::Naming => event is Named || event is Failed,
        PhaseText::Archiving(_) => event is Archived || event is Failed,
        PhaseText::Authenticating(_, _) => event is Asked || event is Failed,
        PhaseText::Sending(_, _) => event is Answered || event is Failed,
        PhaseText::Ended => false,
    }
}

/// The phase that follows `phase` after `event`, and what comes next. An event that cannot come
/// would end the upload without a word.
pub open spec fn step_of(phase: PhaseText, event: EventText) -> (PhaseText, ActionText) {
    match (phase, event) {
        (PhaseText::Looking, EventText::Looked(directory, found)) => if found {
            (PhaseText::Naming, ActionText::Name)
        } else {
            (PhaseText::Ended, ActionText::Fail(missing_directory_text(directory)))
        },
        (PhaseText::Naming, EventText::Named(name)) => (
            PhaseText::Archiving(name),
            ActionText::Archive(name),
        ),
        (PhaseText::Archiving(name), EventText::Archived(bytes)) => if bytes
            <= MAX_GITHUB_FILE_BYTES {
            (PhaseText::Authenticating(name, bytes), ActionText::Authenticate)
        } else {
            (PhaseText::Ended, ActionText::Fail(oversize_text(bytes)))
        },
        (
            PhaseText::Authenticating(name, bytes),
            EventText::Asked { success, stdout, stderr },
        ) => if !success {
            (PhaseText::Ended, ActionText::Fail(login_text(stderr)))
        } else if trimmed(stdout).len() == 0 {
            (PhaseText::Ended, ActionText::Fail(EMPTY_TOKEN@))
        } else {
            (PhaseText::Sending(name, bytes), ActionText::Send(name, trimmed(stdout)))
        },
        (PhaseText::Sending(name, bytes), EventText::Answered(outcome)) => (
            PhaseText::Ended,
            match outcome {
                Ok(url) => ActionText::Finish { archive_name: name, archive_bytes: bytes, url },
                Err(reason) => ActionText::Fail(reason),
            },
        ),
        (_, EventText::Failed(reason)) => (PhaseText::Ended, ActionText::Fail(reason)),
        _ => (PhaseText::Ended, ActionText::Fail(Seq::empty())),
    }
}

/// The course of an upload. The first thing to do is to find out whether there is anything to
/// send.
#[derive(Debug)]
pub struct UploadRun {
    pub phase: UploadPhase,
}

impl UploadRun {
    /// Starts an upload.
    pub fn start() -> (r: Self)
        ensures
            r.phase@ is Looking,
    {
        UploadRun { phase: UploadPhase::Looking }
    }

    /// What comes next, given what has come of the last step.
    pub fn step(&mut self, event: UploadEvent) -> (r: UploadAction)
        requires
            is_expected(old(self).phase@, event@),
        ensures
            (final(self).phase@, r@) == step_of(old(self).phase@, event@),
    {
        let mut phase = UploadPhase::Ended;
        core::mem::swap(&mut self.phase, &mut phase);
        match (phase, event) {
            (UploadPhase::Looking, UploadEvent::Looked(directory, found)) => {
                if found {
                    self.phase = UploadPhase::Naming;
                    UploadAction::Name
                } else {
                    UploadAction::Fail(missing_directory_message(&directory))
                }
            },
            (UploadPhase::Naming, UploadEvent::Named(name)) => {
                self.phase = UploadPhase::Archiving(name.clone());
                UploadAction::Archive(name)
            },
            (UploadPhase::Archiving(name), UploadEvent::Archived(bytes)) => {
                match check_archive_size(bytes) {
                    Ok(()) => {
                        self.phase = UploadPhase::Authenticating(name, bytes);
                        UploadAction::Authenticate
                    },
                    Err(reason) => UploadAction::Fail(reason),
                }
            },
            (
                UploadPhase::Authenticating(name, bytes),
                UploadEvent::Asked { success, stdout, stderr },
            ) => {
                if !success {
                    return UploadAction::Fail(login_failure(&stderr));
                }
                match read_token(&stdout) {
                    Ok(token) => {
                        self.phase = UploadPhase::Sending(name.clone(), bytes);
                        UploadAction::Send(name, token)
                    },
                    Err(reason) => UploadAction::Fail(reason),
                }
            },
            (
                UploadPhase::Sending(archive_name, archive_bytes),
                UploadEvent::Answered { status, status_text, body },
            ) => match upload_outcome(status, &status_text, &body) {
                Ok(url) => UploadAction::Finish(
                    DiagnosticUpload { archive_name, archive_bytes, url },
                ),
                Err(reason) => UploadAction::Fail(reason),
            },
            (_, UploadEvent::Failed(reason)) => UploadAction::Fail(reason),
            (_, _) => UploadAction::Fail(String::new()),
        }
    }
}

/// Nobody is asked for a token before there is an archive that is small enough to be sent: where
/// the workspace has nothing to send, the upload has ended by then.
pub proof fn law_no_token_without_an_archive(phase: PhaseText, event: EventText)
    requires
        is_expected(phase, event),
        step_of(phase, event).1 is Authenticate,
    ensures
        phase is Archiving,
        event matches EventText::Archived(bytes) && bytes <= MAX_GITHUB_FILE_BYTES,
{
}

/// A workspace without anything to send fails at once.
pub proof fn law_missing_workspace_fails_first(directory: Seq<char>)
    ensures
        step_of(PhaseText::Looking, EventText::Looked(directory, false)) == (
            PhaseText::Ended,
            ActionText::Fail(missing_directory_text(directory)),
        ),
{
}

/// A token leaves no trace: what an upload says after it has been sent does not depend on it.
pub proof fn law_tokens_are_not_told(
    name: Seq<char>,
    bytes: u64,
    token: Seq<char>,
    other: Seq<char>,
    stderr: Seq<char>,
)
    requires
        trimmed(token).len() > 0,
        trimmed(other).len() > 0,
    ensures
        ({
            let phase = PhaseText::Authenticating(name, bytes);
            let asked = EventText::Asked { success: true, stdout: token, stderr };
            let asked_other = EventText::Asked { success: true, stdout: other, stderr };
            &&& step_of(phase, asked).1 == ActionText::Send(name, trimmed(token))
            &&& step_of(phase, asked).0 == step_of(phase, asked_other).0
        }),
{
}

/// What an upload comes to is about the archive that was put together: nothing but its name and
/// its size are reported.
pub proof fn law_upload_reports_its_archive(phase: PhaseText, event: EventText)
    requires
        is_expected(phase, event),
    ensures
        step_of(phase, event).1 matches ActionText::Finish { archive_name, archive_bytes, url } ==> (
        phase == PhaseText::Sending(archive_name, archive_bytes) && event == EventText::Answered(
            Ok(url),
        )),
{
}

/// An upload comes to its end: every step leads to a later phase.
pub proof fn law_uploads_end(phase: PhaseText, event: EventText)
    requires
        is_expected(phase, event),
    ensures
        phase_number(phase) < phase_number(step_of(phase, event).0),
{
}

/// The place of `phase` in the course of an upload.
pub open spec fn phase_number(phase: PhaseText) -> int {
    match phase {
        PhaseText::Looking => 0,
        PhaseText::Naming => 1,
        PhaseText::Archiving(_) => 2,
        PhaseText::Authenticating(_, _) => 3,
        PhaseText::Sending(_, _) => 4,
        PhaseText::Ended => 5,
    }
}

} // verus!
