//! The course of an update: what comes next, given what has come of the last step.

use vstd::prelude::*;

use crate::text::is_blank;
use crate::updater::asset_for;
use crate::updater::asset_position;
use crate::updater::check_release_tag;
use crate::updater::decide_update;
use crate::updater::decision_message;
use crate::updater::decision_of;
use crate::updater::decision_text;
use crate::updater::digest_outcome;
use crate::updater::is_before;
use crate::updater::law_no_downgrade;
use crate::updater::missing_asset_text;
use crate::updater::release_asset;
use crate::updater::sha256_of;
use crate::updater::update_message;
use crate::updater::update_text;
use crate::updater::verify_release_bytes;
use crate::updater::version_of;
use crate::updater::GitHubRelease;
use crate::updater::UpdateDecision;
use crate::updater::UpdatePlatform;
use crate::updater::CHECKSUM_ASSET;

verus! {

/// How far an update has come.
#[derive(Clone, Copy, Debug, PartialEq, Eq, Structural)]
pub enum UpdatePhase {
    /// The latest release has been asked for.
    Asking,
    /// A directory for downloads is being made.
    Preparing,
    /// The executable is being downloaded.
    FetchingExecutable,
    /// The checksums are being downloaded.
    FetchingChecksums,
    /// What was downloaded is being read.
    Reading,
    /// The executable is being put in the place of the one that runs.
    Deploying,
    /// The update has ended, well or not.
    Ended,
}

/// What has come of the last step.
#[derive(Debug)]
pub enum UpdateEvent {
    /// The latest release.
    Release(GitHubRelease),
    /// There is a directory for downloads.
    DirectoryMade,
    /// The file has been downloaded.
    Downloaded,
    /// What was downloaded: the executable, if there is one, and the manifest, or why it cannot
    /// be read.
    Read(Option<Vec<u8>>, Result<String, String>),
    /// The executable is in the place that it gives, or will be once this process has ended.
    Deployed(String, bool),
    /// The step has failed, for a reason.
    Failed(String),
}

/// What comes next.
#[derive(Debug)]
pub enum UpdateAction {
    /// Say what is going to happen, and make a directory for downloads.
    MakeDirectory(String),
    /// Download the file of a name from an address.
    Download(String, String),
    /// Read what was downloaded.
    Read,
    /// Put the executable in the place of the one that runs.
    Deploy,
    /// All is well: say so.
    Finish(String),
    /// The update has failed: say why.
    Fail(String),
}

/// The model of an action.
#[verifier::ext_equal]
pub enum ActionText {
    MakeDirectory(Seq<char>),
    Download(Seq<char>, Seq<char>),
    Read,
    Deploy,
    Finish(Seq<char>),
    Fail(Seq<char>),
}

impl View for UpdateAction {
    type V = ActionText;

    open spec fn view(&self) -> ActionText {
        match self {
            UpdateAction::MakeDirectory(message) => ActionText::MakeDirectory(message@),
            UpdateAction::Download(name, url) => ActionText::Download(name@, url@),
            UpdateAction::Read => ActionText::Read,
            UpdateAction::Deploy => ActionText::Deploy,
            UpdateAction::Finish(message) => ActionText::Finish(message@),
            UpdateAction::Fail(message) => ActionText::Fail(message@),
        }
    }
}

/// The course of an update.
#[derive(Debug)]
pub struct UpdateRun {
    pub phase: UpdatePhase,
    pub asset: &'static str,
    pub current_tag: String,
    pub release: Option<GitHubRelease>,
}

/// Whether `event` can come of what was done in `phase`.
pub open spec fn is_expected(phase: UpdatePhase, event: UpdateEvent) -> bool {
    match phase {
        UpdatePhase::Asking => event is Release || event is Failed,
        UpdatePhase::Preparing => event is DirectoryMade || event is Failed,
        UpdatePhase::FetchingExecutable => event is Downloaded || event is Failed,
        UpdatePhase::FetchingChecksums => event is Downloaded || event is Failed,
        UpdatePhase::Reading => event is Read || event is Failed,
        UpdatePhase::Deploying => event is Deployed || event is Failed,
        UpdatePhase::Ended => false,
    }
}

/// Whether an executable and a manifest are what was published as `asset`, or what is said where
/// they are not.
pub open spec fn read_outcome(
    executable: Option<Seq<u8>>,
    manifest: Result<Seq<char>, Seq<char>>,
    asset: Seq<char>,
) -> Result<(), Seq<char>> {
    match executable {
        None => Err("release asset was not downloaded: "@ + asset),
        Some(bytes) => if bytes.len() == 0 {
            Err("downloaded release asset is empty: "@ + asset)
        } else {
            match manifest {
                Err(fault) => Err("cannot read downloaded "@ + CHECKSUM_ASSET@ + ": "@ + fault),
                Ok(text) => digest_outcome(sha256_of(bytes), text, asset),
            }
        },
    }
}

/// The models of what was read.
pub open spec fn executable_view(executable: Option<Vec<u8>>) -> Option<Seq<u8>> {
    match executable {
        Some(bytes) => Some(bytes@),
        None => None,
    }
}

/// The model of a manifest, or of why it cannot be read.
pub open spec fn manifest_view(manifest: Result<String, String>) -> Result<Seq<char>, Seq<char>> {
    match manifest {
        Ok(text) => Ok(text@),
        Err(fault) => Err(fault@),
    }
}

/// What a download of the file `name` of `release` takes.
pub open spec fn download_of(release: GitHubRelease, name: Seq<char>) -> ActionText {
    match asset_position(release.assets@, name) {
        Some(at) => ActionText::Download(name, release.assets@[at].browser_download_url@),
        None => ActionText::Fail(missing_asset_text(release.tag_name@, name)),
    }
}

/// What comes next where `release` is the latest one and `current` runs.
pub open spec fn release_action(release: GitHubRelease, current: Seq<char>) -> ActionText {
    let tag = release.tag_name@;
    if is_blank(tag) {
        ActionText::Fail("GitHub returned an empty latest release tag"@)
    } else {
        match decision_of(tag, current) {
            Err(message) => ActionText::Fail(message),
            Ok(UpdateDecision::Install) => ActionText::MakeDirectory(
                decision_text(UpdateDecision::Install, tag, current),
            ),
            Ok(decision) => ActionText::Finish(decision_text(decision, tag, current)),
        }
    }
}

impl UpdateRun {
    /// Whether all is known by now that the phase rests on: a release that is to be installed.
    pub open spec fn is_valid(&self) -> bool {
        self.phase is Asking || self.phase is Ended || (self.release matches Some(release)
            && decision_of(release.tag_name@, self.current_tag@) == Ok::<
            UpdateDecision,
            Seq<char>,
        >(UpdateDecision::Install))
    }

    /// What comes next after `event`.
    pub open spec fn action_after(&self, event: UpdateEvent) -> ActionText {
        match event {
            UpdateEvent::Failed(message) => ActionText::Fail(message@),
            UpdateEvent::Release(release) => release_action(release, self.current_tag@),
            UpdateEvent::DirectoryMade => download_of(self.release->0, self.asset@),
            UpdateEvent::Downloaded => if self.phase is FetchingExecutable {
                download_of(self.release->0, CHECKSUM_ASSET@)
            } else {
                ActionText::Read
            },
            UpdateEvent::Read(executable, manifest) => match read_outcome(
                executable_view(executable),
                manifest_view(manifest),
                self.asset@,
            ) {
                Ok(_) => ActionText::Deploy,
                Err(message) => ActionText::Fail(message),
            },
            UpdateEvent::Deployed(executable, after_exit) => ActionText::Finish(
                update_text(self.release->0.tag_name@, executable@, after_exit),
            ),
        }
    }

    /// The phase in which `action` comes next.
    pub open spec fn phase_after(&self, action: ActionText) -> UpdatePhase {
        match action {
            ActionText::MakeDirectory(_) => UpdatePhase::Preparing,
            ActionText::Download(_, _) => if self.phase is Preparing {
                UpdatePhase::FetchingExecutable
            } else {
                UpdatePhase::FetchingChecksums
            },
            ActionText::Read => UpdatePhase::Reading,
            ActionText::Deploy => UpdatePhase::Deploying,
            ActionText::Finish(_) => UpdatePhase::Ended,
            ActionText::Fail(_) => UpdatePhase::Ended,
        }
    }

    /// Starts an update of the release `current_tag` for a system on an architecture. The latest
    /// release has to be asked for.
    pub fn start(os: &str, arch: &str, current_tag: String) -> (r: Result<Self, String>)
        ensures
            match r {
                Ok(run) => run.is_valid() && run.phase is Asking && run.current_tag@
                    == current_tag@ && run.release is None && asset_for(os@, arch@)
                    == Some(run.asset@),
                Err(message) => asset_for(os@, arch@) is None && message@
                    == "me update does not support "@ + os@ + "/"@ + arch@,
            },
    {
        match UpdatePlatform::for_target(os, arch) {
            Ok(platform) => Ok(
                UpdateRun {
                    phase: UpdatePhase::Asking,
                    asset: platform.asset,
                    current_tag,
                    release: None,
                },
            ),
            Err(message) => Err(message),
        }
    }

    fn fail(&mut self, message: String) -> (r: UpdateAction)
        ensures
            final(self).phase is Ended,
            final(self).asset == old(self).asset,
            final(self).current_tag == old(self).current_tag,
            final(self).release == old(self).release,
            r@ == ActionText::Fail(message@),
    {
        self.phase = UpdatePhase::Ended;
        UpdateAction::Fail(message)
    }

    fn consider(&mut self, release: GitHubRelease) -> (r: UpdateAction)
        ensures
            r@ == release_action(release, old(self).current_tag@),
            final(self).phase == old(self).phase_after(r@),
            final(self).asset == old(self).asset,
            final(self).current_tag == old(self).current_tag,
            final(self).release == Some(release),
    {
        let checked = check_release_tag(&release.tag_name);
        let decided = decide_update(&release.tag_name, &self.current_tag);
        let mut message = String::new();
        if let Ok(decision) = decided {
            message = decision_message(decision, &release.tag_name, &self.current_tag);
        }
        self.release = Some(release);
        if let Err(fault) = checked {
            return self.fail(fault);
        }
        match decided {
            Err(fault) => self.fail(fault),
            Ok(UpdateDecision::Install) => {
                self.phase = UpdatePhase::Preparing;
                UpdateAction::MakeDirectory(message)
            },
            Ok(_) => {
                self.phase = UpdatePhase::Ended;
                UpdateAction::Finish(message)
            },
        }
    }

    fn download(&mut self, name: &str, phase: UpdatePhase) -> (r: UpdateAction)
        requires
            old(self).release is Some,
        ensures
            r@ == download_of(old(self).release->0, name@),
            final(self).phase == (if r@ is Download {
                phase
            } else {
                UpdatePhase::Ended
            }),
            final(self).asset == old(self).asset,
            final(self).current_tag == old(self).current_tag,
            final(self).release == old(self).release,
    {
        let found = match &self.release {
            Some(release) => match release_asset(release, name) {
                Ok(asset) => Ok(asset.browser_download_url.clone()),
                Err(fault) => Err(fault),
            },
            None => Err(String::new()),
        };
        match found {
            Ok(url) => {
                self.phase = phase;
                UpdateAction::Download(name.to_owned(), url)
            },
            Err(fault) => self.fail(fault),
        }
    }

    fn hold_against(
        &mut self,
        executable: Option<Vec<u8>>,
        manifest: Result<String, String>,
    ) -> (r: UpdateAction)
        ensures
            r@ == match read_outcome(
                executable_view(executable),
                manifest_view(manifest),
                old(self).asset@,
            ) {
                Ok(_) => ActionText::Deploy,
                Err(message) => ActionText::Fail(message),
            },
            final(self).phase == old(self).phase_after(r@),
            final(self).asset == old(self).asset,
            final(self).current_tag == old(self).current_tag,
            final(self).release == old(self).release,
    {
        let bytes = match executable {
            Some(bytes) => bytes,
            None => {
                let mut message = "release asset was not downloaded: ".to_owned();
                message.append(self.asset);
                return self.fail(message);
            },
        };
        let text = match manifest {
            Ok(text) => text,
            Err(fault) => {
                if bytes.len() == 0 {
                    let mut message = "downloaded release asset is empty: ".to_owned();
                    message.append(self.asset);
                    return self.fail(message);
                }
                let mut message = "cannot read downloaded ".to_owned();
                message.append(CHECKSUM_ASSET);
                message.append(": ");
                message.append(&fault);
                return self.fail(message);
            },
        };
        match verify_release_bytes(&bytes, &text, self.asset) {
            Ok(()) => {
                self.phase = UpdatePhase::Deploying;
                UpdateAction::Deploy
            },
            Err(message) => self.fail(message),
        }
    }

    /// What comes next, given what has come of the last step.
    pub fn step(&mut self, event: UpdateEvent) -> (r: UpdateAction)
        requires
            old(self).is_valid(),
            is_expected(old(self).phase, event),
        ensures
            r@ == old(self).action_after(event),
            final(self).phase == old(self).phase_after(r@),
            final(self).asset == old(self).asset,
            final(self).current_tag == old(self).current_tag,
            final(self).release == (match event {
                UpdateEvent::Release(release) => Some(release),
                _ => old(self).release,
            }),
            final(self).is_valid(),
    {
        match event {
            UpdateEvent::Failed(message) => self.fail(message),
            UpdateEvent::Release(release) => self.consider(release),
            UpdateEvent::DirectoryMade => self.download(
                self.asset,
                UpdatePhase::FetchingExecutable,
            ),
            UpdateEvent::Downloaded => {
                if let UpdatePhase::FetchingExecutable = self.phase {
                    self.download(CHECKSUM_ASSET, UpdatePhase::FetchingChecksums)
                } else {
                    self.phase = UpdatePhase::Reading;
                    UpdateAction::Read
                }
            },
            UpdateEvent::Read(executable, manifest) => self.hold_against(executable, manifest),
            UpdateEvent::Deployed(executable, after_exit) => {
                let mut message = String::new();
                if let Some(release) = &self.release {
                    message = update_message(&release.tag_name, &executable, after_exit);
                }
                self.phase = UpdatePhase::Ended;
                UpdateAction::Finish(message)
            },
        }
    }
}

/// Nothing takes the place of the release that runs but what was downloaded, is not empty and has
/// the checksum that was published for it, and it comes of no older release.
pub proof fn law_only_what_was_published_is_deployed(run: UpdateRun, event: UpdateEvent)
    requires
        run.is_valid(),
        is_expected(run.phase, event),
        run.action_after(event) is Deploy,
    ensures
        event matches UpdateEvent::Read(Some(executable), Ok(manifest)) && executable@.len() > 0
            && digest_outcome(sha256_of(executable@), manifest@, run.asset@) is Ok,
        run.release matches Some(release) && version_of(release.tag_name@) is Some && version_of(
            run.current_tag@,
        ) is Some && !is_before(
            version_of(release.tag_name@)->0,
            version_of(run.current_tag@)->0,
        ),
{
    if let Some(release) = run.release {
        law_no_downgrade(release.tag_name@, run.current_tag@);
    }
}

/// An update comes to its end: every step leads to a later phase.
pub proof fn law_updates_end(run: UpdateRun, event: UpdateEvent)
    requires
        run.is_valid(),
        is_expected(run.phase, event),
    ensures
        phase_number(run.phase) < phase_number(run.phase_after(run.action_after(event))),
{
}

/// The place of `phase` in the course of an update.
pub open spec fn phase_number(phase: UpdatePhase) -> int {
    match phase {
        UpdatePhase::Asking => 0,
        UpdatePhase::Preparing => 1,
        UpdatePhase::FetchingExecutable => 2,
        UpdatePhase::FetchingChecksums => 3,
        UpdatePhase::Reading => 4,
        UpdatePhase::Deploying => 5,
        UpdatePhase::Ended => 6,
    }
}

} // verus!
