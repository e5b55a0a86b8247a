//! The course that an update takes: what is downloaded, from where, and what comes of it.

use vstd::prelude::*;

use crate::parts::hex_of;
use crate::parts::lines_of;
use crate::parts::words_of;
use crate::text::is_blank;
use crate::text::lowered;
use crate::updater::asset_position;
use crate::updater::decision_of;
use crate::updater::digest_outcome;
use crate::updater::is_entry_for;
use crate::updater::is_only_entry;
use crate::updater::law_one_entry_decides;
use crate::updater::manifest_entry;
use crate::updater::missing_asset_text;
use crate::updater::releases::is_sha256_text;
use crate::updater::releases::law_checksums_are_hexadecimal_digits;
use crate::updater::releases::law_first_file_of_a_name;
use crate::updater::releases::law_higher_numbers_are_installed;
use crate::updater::releases::law_numbers_order_releases;
use crate::updater::releases::law_tags_are_read;
use crate::updater::releases::tag_of;
use crate::updater::run::executable_view;
use crate::updater::run::manifest_view;
use crate::updater::run::release_action;
use crate::updater::run::ActionText;
use crate::updater::run::UpdateEvent;
use crate::updater::run::UpdatePhase;
use crate::updater::run::UpdateRun;
use crate::updater::sha256_of;
use crate::updater::version_of;
use crate::updater::GitHubRelease;
use crate::updater::ManifestFault;
use crate::updater::UpdateDecision;

verus! {

/// Whether the file at `at` is the first of `release` that goes by `name`.
pub open spec fn is_first_file(release: GitHubRelease, name: Seq<char>, at: int) -> bool {
    &&& 0 <= at < release.assets@.len()
    &&& release.assets@[at].name@ == name
    &&& forall|i: int| 0 <= i < at ==> (#[trigger] release.assets@[i]).name@ != name
}

proof fn lemma_first_file(release: GitHubRelease, name: Seq<char>, at: int)
    requires
        is_first_file(release, name, at),
    ensures
        asset_position(release.assets@, name) == Some(at),
{
    law_first_file_of_a_name(release.assets@, name);
    if let Some(found) = asset_position(release.assets@, name) {
        if at < found {
            assert(release.assets@[at].name@ != name);
        } else if found < at {
            assert(release.assets@[found].name@ != name);
        }
    }
}

/// Once there is a directory for it, the executable for this system is downloaded from the address
/// that the release gives, then the checksums are, and then both are read.
pub proof fn law_files_are_downloaded_from_the_release(
    run: UpdateRun,
    release: GitHubRelease,
    executable: int,
    checksums: int,
)
    requires
        run.release == Some(release),
        is_first_file(release, run.asset@, executable),
        is_first_file(release, "SHA256SUMS"@, checksums),
    ensures
        run.phase is Preparing ==> run.action_after(UpdateEvent::DirectoryMade)
            == ActionText::Download(
            run.asset@,
            release.assets@[executable].browser_download_url@,
        ),
        run.phase is FetchingExecutable ==> run.action_after(UpdateEvent::Downloaded)
            == ActionText::Download(
            "SHA256SUMS"@,
            release.assets@[checksums].browser_download_url@,
        ),
        run.phase is FetchingChecksums ==> run.action_after(UpdateEvent::Downloaded)
            == ActionText::Read,
{
    lemma_first_file(release, run.asset@, executable);
    lemma_first_file(release, "SHA256SUMS"@, checksums);
}

/// A release without a file that is needed ends the update, and the file is named.
pub proof fn law_missing_files_end_the_update(
    run: UpdateRun,
    release: GitHubRelease,
    name: Seq<char>,
)
    requires
        run.release == Some(release),
        forall|i: int|
            0 <= i < release.assets@.len() ==> (#[trigger] release.assets@[i]).name@ != name,
    ensures
        run.phase is Preparing && name == run.asset@ ==> run.action_after(
            UpdateEvent::DirectoryMade,
        ) == ActionText::Fail(missing_asset_text(release.tag_name@, name)),
        run.phase is FetchingExecutable && name == "SHA256SUMS"@ ==> run.action_after(
            UpdateEvent::Downloaded,
        ) == ActionText::Fail(missing_asset_text(release.tag_name@, name)),
{
    law_first_file_of_a_name(release.assets@, name);
}

/// The executable is deployed if and only if it was downloaded, is not empty, and the manifest could
/// be read and gives its checksum.
pub proof fn law_what_is_right_is_deployed(
    run: UpdateRun,
    executable: Option<Vec<u8>>,
    manifest: Result<String, String>,
)
    ensures
        run.action_after(UpdateEvent::Read(executable, manifest)) is Deploy <==> (match (
            executable,
            manifest,
        ) {
            (Some(bytes), Ok(text)) => bytes@.len() > 0 && digest_outcome(
                sha256_of(bytes@),
                text@,
                run.asset@,
            ) is Ok,
            _ => false,
        }),
        !(run.action_after(UpdateEvent::Read(executable, manifest)) is Deploy) ==> run.action_after(
            UpdateEvent::Read(executable, manifest),
        ) is Fail,
{
    assert(executable_view(executable) is Some == executable is Some);
    assert(manifest_view(manifest) is Ok == manifest is Ok);
}

/// A step that fails ends the update, and its reason is told.
pub proof fn law_failures_end_the_update(run: UpdateRun, reason: String)
    ensures
        run.action_after(UpdateEvent::Failed(reason)) == ActionText::Fail(reason@),
        run.phase_after(run.action_after(UpdateEvent::Failed(reason))) == UpdatePhase::Ended,
{
}

/// The update goes on where the release has a higher number than the one that runs, and ends well
/// where it has not.
pub proof fn law_higher_releases_are_fetched(
    release: GitHubRelease,
    latest: (u64, u64, u64),
    current: (u64, u64, u64),
)
    requires
        release.tag_name@ == tag_of(latest),
    ensures
        ({
            let newer = latest.0 > current.0 || (latest.0 == current.0 && (latest.1 > current.1 || (
            latest.1 == current.1 && latest.2 > current.2)));
            &&& newer ==> release_action(release, tag_of(current)) == ActionText::MakeDirectory(
                "updating me: "@ + tag_of(current) + " -> "@ + tag_of(latest),
            )
            &&& latest == current ==> release_action(release, tag_of(current)) == ActionText::Finish(
                "me is already up to date: "@ + tag_of(current),
            )
            &&& !newer && latest != current ==> release_action(release, tag_of(current))
                == ActionText::Finish(
                "the running me version "@ + tag_of(current)
                    + " is newer than the latest published release "@ + tag_of(latest)
                    + "; no update was installed"@,
            )
        }),
{
    law_higher_numbers_are_installed(latest, current);
    reveal_strlit("v");
    assert(!is_blank(tag_of(latest))) by {
        assert(tag_of(latest)[0] == 'v');
    }
}

/// Where the tags differ but not their numbers, the latest release is installed, and a tag that has no
/// three numbers ends the update: that of the latest release first.
pub proof fn law_tags_decide(
    version: (u64, u64, u64),
    suffix: Seq<char>,
    other: Seq<char>,
    tag: Seq<char>,
)
    requires
        suffix.len() == 0 || suffix[0] == '-' || suffix[0] == '+',
        other.len() == 0 || other[0] == '-' || other[0] == '+',
        suffix != other,
        version_of(tag) is None,
    ensures
        decision_of(tag_of(version) + suffix, tag_of(version) + other) == Ok::<
            UpdateDecision,
            Seq<char>,
        >(UpdateDecision::Install),
        decision_of(tag, tag_of(version)) == Err::<UpdateDecision, Seq<char>>(
            "invalid me release tag: "@ + tag,
        ),
        decision_of(tag_of(version), tag) == Err::<UpdateDecision, Seq<char>>(
            "invalid me release tag: "@ + tag,
        ),
        forall|current: Seq<char>|
            current != tag ==> #[trigger] decision_of(tag, current) == Err::<
                UpdateDecision,
                Seq<char>,
            >("invalid me release tag: "@ + tag),
{
    law_tags_are_read(version, suffix);
    law_tags_are_read(version, other);
    law_tags_are_read(version, Seq::empty());
    let core = tag_of(version);
    assert(core + Seq::<char>::empty() =~= core);
    assert(core + suffix != core + other) by {
        assert((core + suffix).skip(core.len() as int) =~= suffix);
        assert((core + other).skip(core.len() as int) =~= other);
    }
    law_numbers_order_releases(version, version);
}

/// What is said of a tag, of a file and of a checksum names what is wrong with it.
pub proof fn law_faults_are_named(
    digest: Seq<u8>,
    manifest: Seq<char>,
    asset: Seq<char>,
    tag: Seq<char>,
)
    ensures
        missing_asset_text(tag, asset) == "release "@ + tag + " does not contain required asset "@
            + asset,
        (forall|i: int|
            0 <= i < lines_of(manifest).len() ==> !is_entry_for(
                #[trigger] lines_of(manifest)[i],
                asset,
            )) ==> digest_outcome(digest, manifest, asset) == Err::<(), Seq<char>>(
            "SHA256SUMS"@ + " does not contain "@ + asset,
        ),
        forall|at: int|
            #[trigger] is_only_entry(lines_of(manifest), asset, at) && is_sha256_text(
                words_of(lines_of(manifest)[at])[0],
            ) && lowered(words_of(lines_of(manifest)[at])[0]) != hex_of(digest) ==> digest_outcome(
                digest,
                manifest,
                asset,
            ) == Err::<(), Seq<char>>(
                "release checksum mismatch for "@ + asset + ": expected "@ + lowered(
                    words_of(lines_of(manifest)[at])[0],
                ) + ", received "@ + hex_of(digest),
            ),
{
    let lines = lines_of(manifest);
    law_one_entry_decides(lines, asset);
    if forall|i: int| 0 <= i < lines.len() ==> !is_entry_for(#[trigger] lines[i], asset) {
        assert(manifest_entry(lines, asset) == Ok::<Option<Seq<char>>, ManifestFault>(None));
    }
    assert forall|at: int|
        #[trigger] is_only_entry(lines, asset, at) && is_sha256_text(words_of(lines[at])[0])
            && lowered(words_of(lines[at])[0]) != hex_of(digest) implies digest_outcome(
        digest,
        manifest,
        asset,
    ) == Err::<(), Seq<char>>(
        "release checksum mismatch for "@ + asset + ": expected "@ + lowered(
            words_of(lines[at])[0],
        ) + ", received "@ + hex_of(digest),
    ) by {
        law_checksums_are_hexadecimal_digits(lines, asset, at);
    }
}

/// What is said of an update that is done, or is going to be once this process has ended, names the
/// release and the place of the program.
pub proof fn law_updates_are_reported(run: UpdateRun, release: GitHubRelease, place: String)
    requires
        run.release == Some(release),
    ensures
        run.action_after(UpdateEvent::Deployed(place, false)) == ActionText::Finish(
            "updated me to "@ + release.tag_name@ + "\nexecutable: "@ + place@
                + "\nglobal configuration: unchanged"@,
        ),
        run.action_after(UpdateEvent::Deployed(place, true)) == ActionText::Finish(
            "downloaded me "@ + release.tag_name@
                + "; Windows will replace the executable after this process exits\nexecutable: "@
                + place@ + "\nglobal configuration: unchanged"@,
        ),
{
}

} // verus!
