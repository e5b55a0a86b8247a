//! Releases: which one fits, whether it is newer, and whether what was downloaded is what was
//! published.

use sha2::Digest;
use sha2::Sha256;
use vstd::prelude::*;

pub mod course;
pub mod naming;
pub mod releases;
pub mod run;

use crate::parts::chars_view;
use crate::parts::fields_of;
use crate::parts::hex_of;
use crate::parts::hex_text;
use crate::parts::is_number;
use crate::parts::lines_of;
use crate::parts::number_of;
use crate::parts::parse_number;
use crate::parts::split_fields;
use crate::parts::split_lines;
use crate::parts::split_words;
use crate::parts::words_of;
use crate::random::random_bytes;
use crate::text::chars_of;
use crate::text::copy_range;
use crate::text::decimal;
use crate::text::decimal_text;
use crate::text::is_blank;
use crate::text::is_blank_text;
use crate::text::lowered;
use crate::text::lowered_text;
use crate::text::occurs_at;
use crate::text::pattern_at;
use crate::text::same_text;
use crate::text::text_range;
use crate::text::texts_view;
use crate::text::trim_text;
use crate::text::trimmed;

verus! {

/// Where releases are published.
pub const RELEASE_REPOSITORY: &'static str = "LytsingStudio/me-rust";

/// The asset that holds the checksums of the others.
pub const CHECKSUM_ASSET: &'static str = "SHA256SUMS";

/// The version of the interface that is asked for.
pub const GITHUB_API_VERSION: &'static str = "2022-11-28";

/// The version of this program.
pub const VERSION: &'static str = "0.0.267";

/// What this program calls itself when it asks for a release.
pub const UPDATE_USER_AGENT: &'static str = "me-rust/0.0.267";

/// What a release is published as for one platform.
#[derive(Clone, Copy, Debug, PartialEq, Eq)]
pub struct UpdatePlatform {
    pub asset: &'static str,
}

/// A release.
#[derive(Debug)]
pub struct GitHubRelease {
    pub tag_name: String,
    pub assets: Vec<GitHubReleaseAsset>,
}

/// A file of a release.
#[derive(Debug)]
pub struct GitHubReleaseAsset {
    pub name: String,
    pub browser_download_url: String,
}

/// The name of the asset for a system on an architecture.
pub open spec fn asset_for(os: Seq<char>, arch: Seq<char>) -> Option<Seq<char>> {
    if os == "macos"@ && arch == "aarch64"@ {
        Some("me-macos-arm64"@)
    } else if os == "macos"@ && arch == "x86_64"@ {
        Some("me-macos-x86_64"@)
    } else if os == "linux"@ && arch == "aarch64"@ {
        Some("me-linux-arm64"@)
    } else if os == "linux"@ && arch == "x86_64"@ {
        Some("me-linux-x86_64"@)
    } else if os == "windows"@ && arch == "x86_64"@ {
        Some("me-windows-x86_64.exe"@)
    } else {
        None
    }
}

impl UpdatePlatform {
    /// The platform of a system on an architecture.
    pub fn for_target(os: &str, arch: &str) -> (r: Result<Self, String>)
        ensures
            match r {
                Ok(platform) => asset_for(os@, arch@) == Some(platform.asset@),
                Err(message) => asset_for(os@, arch@) is None && message@
                    == "me update does not support "@ + os@ + "/"@ + arch@,
            },
    {
        let asset = if same_text(os, "macos") && same_text(arch, "aarch64") {
            "me-macos-arm64"
        } else if same_text(os, "macos") && same_text(arch, "x86_64") {
            "me-macos-x86_64"
        } else if same_text(os, "linux") && same_text(arch, "aarch64") {
            "me-linux-arm64"
        } else if same_text(os, "linux") && same_text(arch, "x86_64") {
            "me-linux-x86_64"
        } else if same_text(os, "windows") && same_text(arch, "x86_64") {
            "me-windows-x86_64.exe"
        } else {
            let mut message = "me update does not support ".to_owned();
            message.append(os);
            message.append("/");
            message.append(arch);
            return Err(message);
        };
        Ok(UpdatePlatform { asset })
    }
}

/// Where the latest release is asked for.
pub fn latest_release_url() -> (r: String)
    ensures
        r@ == "https://api.github.com/repos/"@ + RELEASE_REPOSITORY@ + "/releases/latest"@,
{
    let mut url = "https://api.github.com/repos/".to_owned();
    url.append(RELEASE_REPOSITORY);
    url.append("/releases/latest");
    url
}

/// The first of `assets` that goes by `name`.
pub open spec fn asset_position(assets: Seq<GitHubReleaseAsset>, name: Seq<char>) -> Option<int>
    decreases assets.len(),
{
    if assets.len() == 0 {
        None
    } else {
        match asset_position(assets.drop_last(), name) {
            Some(at) => Some(at),
            None => if assets.last().name@ == name {
                Some(assets.len() - 1)
            } else {
                None
            },
        }
    }
}

proof fn lemma_asset_position(
    assets: Seq<GitHubReleaseAsset>,
    more: Seq<GitHubReleaseAsset>,
    name: Seq<char>,
)
    requires
        asset_position(assets, name) is Some,
    ensures
        asset_position(assets + more, name) == asset_position(assets, name),
    decreases more.len(),
{
    if more.len() == 0 {
        assert(assets + more =~= assets);
    } else {
        lemma_asset_position(assets, more.drop_last(), name);
        assert((assets + more).drop_last() =~= assets + more.drop_last());
    }
}

/// What is said of a release without a file that it should have.
pub open spec fn missing_asset_text(tag: Seq<char>, name: Seq<char>) -> Seq<char> {
    "release "@ + tag + " does not contain required asset "@ + name
}

/// The first file of a release that goes by a name.
pub fn release_asset<'a>(release: &'a GitHubRelease, name: &str) -> (r: Result<
    &'a GitHubReleaseAsset,
    String,
>)
    ensures
        match r {
            Ok(asset) => {
                let at = asset_position(release.assets@, name@);
                at is Some && 0 <= at->0 < release.assets@.len() && *asset
                    == release.assets@[at->0] && asset.name@ == name@
            },
            Err(message) => asset_position(release.assets@, name@) is None && message@
                == missing_asset_text(release.tag_name@, name@),
        },
{
    let ghost all = release.assets@;
    for i in 0..release.assets.len()
        invariant
            all == release.assets@,
            asset_position(all.take(i as int), name@) is None,
    {
        assert(all.take(i + 1).drop_last() =~= all.take(i as int));
        assert(all.take(i + 1).last() == all[i as int]);
        if same_text(&release.assets[i].name, name) {
            proof {
                lemma_asset_position(all.take(i + 1), all.skip(i + 1), name@);
                assert(all.take(i + 1) + all.skip(i + 1) =~= all);
            }
            return Ok(&release.assets[i]);
        }
    }
    assert(all.take(all.len() as int) =~= all);
    let mut message = "release ".to_owned();
    message.append(&release.tag_name);
    message.append(" does not contain required asset ");
    message.append(name);
    Err(message)
}

/// Whether a release says which one it is.
pub fn check_release_tag(tag_name: &str) -> (r: Result<(), String>)
    ensures
        match r {
            Ok(_) => !is_blank(tag_name@),
            Err(message) => is_blank(tag_name@) && message@
                == "GitHub returned an empty latest release tag"@,
        },
{
    if is_blank_text(tag_name) {
        Err("GitHub returned an empty latest release tag".to_owned())
    } else {
        Ok(())
    }
}

/// At most the first 512 characters of `body` without the white space around it, behind a colon.
pub open spec fn detail_of(body: Seq<char>) -> Seq<char> {
    let text = trimmed(body);
    let detail = if text.len() > 512 {
        text.take(512)
    } else {
        text
    };
    if detail.len() == 0 {
        Seq::empty()
    } else {
        ": "@ + detail
    }
}

/// What the body of an answer adds to a message.
pub fn response_detail(body: &str) -> (r: String)
    ensures
        r@ == detail_of(body@),
{
    let text = trim_text(body);
    let chars = chars_of(&text);
    let count: usize = if chars.len() > 512 {
        512
    } else {
        chars.len()
    };
    if count == 0 {
        return String::new();
    }
    let mut detail = ": ".to_owned();
    let kept = text_range(&chars, 0, count);
    assert(kept@ =~= chars@.take(count as int));
    assert(chars@.take(chars@.len() as int) =~= chars@);
    detail.append(&kept);
    detail
}

/// What is said where the latest release cannot be asked for.
pub fn query_failure(status: &str, body: &str) -> (r: String)
    ensures
        r@ == "cannot query the latest public me release: HTTP "@ + status@ + detail_of(body@),
{
    let mut message = "cannot query the latest public me release: HTTP ".to_owned();
    message.append(status);
    message.append(&response_detail(body));
    message
}

/// What is said where a file of a release cannot be downloaded.
pub fn download_failure(asset: &str, status: &str, body: &str) -> (r: String)
    ensures
        r@ == "cannot download release asset "@ + asset@ + ": HTTP "@ + status@ + detail_of(body@),
{
    let mut message = "cannot download release asset ".to_owned();
    message.append(asset);
    message.append(": HTTP ");
    message.append(status);
    message.append(&response_detail(body));
    message
}

/// How many characters at the start of `s` are neither a hyphen nor a plus sign.
pub open spec fn core_length(s: Seq<char>) -> nat
    decreases s.len(),
{
    if s.len() == 0 || s[0] == '-' || s[0] == '+' {
        0
    } else {
        1 + core_length(s.drop_first())
    }
}

/// `tag` without the letter in front of its number.
pub open spec fn unprefixed(tag: Seq<char>) -> Seq<char> {
    if tag.len() > 0 && tag[0] == 'v' {
        tag.drop_first()
    } else {
        tag
    }
}

/// The part of `tag` that orders releases.
pub open spec fn version_core(tag: Seq<char>) -> Seq<char> {
    unprefixed(tag).take(core_length(unprefixed(tag)) as int)
}

/// The number of the release that goes by `tag`: three numbers with dots between them.
pub open spec fn version_of(tag: Seq<char>) -> Option<(u64, u64, u64)> {
    let fields = fields_of(version_core(tag), '.');
    if fields.len() == 3 && is_number(fields[0]) && is_number(fields[1]) && is_number(fields[2]) {
        Some(
            (
                number_of(fields[0]) as u64,
                number_of(fields[1]) as u64,
                number_of(fields[2]) as u64,
            ),
        )
    } else {
        None
    }
}

/// What is said of a tag that is none.
pub open spec fn tag_fault(tag: Seq<char>) -> Seq<char> {
    "invalid me release tag: "@ + tag
}

fn tag_error(tag: &str) -> (r: String)
    ensures
        r@ == tag_fault(tag@),
{
    let mut message = "invalid me release tag: ".to_owned();
    message.append(tag);
    message
}

/// The number of the release that goes by a tag.
pub fn release_version(tag: &str) -> (r: Result<(u64, u64, u64), String>)
    ensures
        match r {
            Ok(version) => version_of(tag@) == Some(version),
            Err(message) => version_of(tag@) is None && message@ == tag_fault(tag@),
        },
{
    let chars = chars_of(tag);
    let start: usize = if chars.len() > 0 && chars[0] == 'v' {
        1
    } else {
        0
    };
    let ghost rest = unprefixed(tag@);
    assert(chars@.skip(start as int) =~= rest);
    let mut end = start;
    while end < chars.len() && chars[end] != '-' && chars[end] != '+'
        invariant
            start <= end <= chars@.len(),
            end - start + core_length(chars@.skip(end as int)) == core_length(
                chars@.skip(start as int),
            ),
        decreases chars@.len() - end,
    {
        assert(chars@.skip(end as int)[0] == chars@[end as int]);
        assert(chars@.skip(end as int).drop_first() =~= chars@.skip(end + 1));
        end = end + 1;
    }
    assert(core_length(chars@.skip(end as int)) == 0) by {
        if end < chars@.len() {
            assert(chars@.skip(end as int)[0] == chars@[end as int]);
        }
    }
    let core = copy_range(&chars, start, end);
    assert(core@ =~= rest.take(end - start));
    let fields = split_fields(&core, '.');
    let ghost all = chars_view(fields@);
    if fields.len() != 3 {
        return Err(tag_error(tag));
    }
    assert(all[0] == fields@[0]@ && all[1] == fields@[1]@ && all[2] == fields@[2]@);
    let major = parse_number(&fields[0]);
    let minor = parse_number(&fields[1]);
    let patch = parse_number(&fields[2]);
    match (major, minor, patch) {
        (Some(a), Some(b), Some(c)) => Ok((a, b, c)),
        _ => Err(tag_error(tag)),
    }
}

/// Whether release `a` comes before release `b`.
pub open spec fn is_before(a: (u64, u64, u64), b: (u64, u64, u64)) -> bool {
    a.0 < b.0 || (a.0 == b.0 && (a.1 < b.1 || (a.1 == b.1 && a.2 < b.2)))
}

/// What to do about the latest release.
#[derive(Clone, Copy, Debug, PartialEq, Eq, Structural)]
pub enum UpdateDecision {
    /// It is the one that runs.
    UpToDate,
    /// It is older than the one that runs.
    Newer,
    /// It takes the place of the one that runs.
    Install,
}

/// What to do about the release `latest` where `current` runs, or which of them is no release.
pub open spec fn decision_of(latest: Seq<char>, current: Seq<char>) -> Result<
    UpdateDecision,
    Seq<char>,
> {
    if latest == current {
        Ok(UpdateDecision::UpToDate)
    } else {
        match (version_of(latest), version_of(current)) {
            (None, _) => Err(tag_fault(latest)),
            (Some(_), None) => Err(tag_fault(current)),
            (Some(a), Some(b)) => if is_before(a, b) {
                Ok(UpdateDecision::Newer)
            } else {
                Ok(UpdateDecision::Install)
            },
        }
    }
}

/// Decides what to do about the latest release.
pub fn decide_update(latest_tag: &str, current_tag: &str) -> (r: Result<UpdateDecision, String>)
    ensures
        match r {
            Ok(decision) => decision_of(latest_tag@, current_tag@) == Ok::<
                UpdateDecision,
                Seq<char>,
            >(decision),
            Err(message) => decision_of(latest_tag@, current_tag@) == Err::<
                UpdateDecision,
                Seq<char>,
            >(message@),
        },
{
    if same_text(latest_tag, current_tag) {
        return Ok(UpdateDecision::UpToDate);
    }
    let latest = match release_version(latest_tag) {
        Ok(version) => version,
        Err(message) => return Err(message),
    };
    let current = match release_version(current_tag) {
        Ok(version) => version,
        Err(message) => return Err(message),
    };
    let older = latest.0 < current.0 || (latest.0 == current.0 && (latest.1 < current.1 || (
    latest.1 == current.1 && latest.2 < current.2)));
    if older {
        Ok(UpdateDecision::Newer)
    } else {
        Ok(UpdateDecision::Install)
    }
}

/// Releases are ordered: none comes before itself, of two different numbers one comes first, and
/// what comes before something earlier comes before it.
pub proof fn law_releases_are_ordered(
    a: (u64, u64, u64),
    b: (u64, u64, u64),
    c: (u64, u64, u64),
)
    ensures
        !is_before(a, a),
        a != b ==> is_before(a, b) != is_before(b, a),
        is_before(a, b) && is_before(b, c) ==> is_before(a, c),
{
}

/// An update never takes the place of a newer release: where the latest one is installed, the
/// one that runs does not come behind it.
pub proof fn law_no_downgrade(latest: Seq<char>, current: Seq<char>)
    ensures
        decision_of(latest, current) == Ok::<UpdateDecision, Seq<char>>(UpdateDecision::Install)
            ==> latest != current && version_of(latest) is Some && version_of(current) is Some
            && !is_before(version_of(latest)->0, version_of(current)->0),
{
}

/// The tag of the release that runs.
pub fn current_tag() -> (r: String)
    ensures
        r@ == "v"@ + VERSION@,
{
    let mut tag = "v".to_owned();
    tag.append(VERSION);
    tag
}

/// What is said of a decision.
pub open spec fn decision_text(decision: UpdateDecision, latest: Seq<char>, current: Seq<char>)
    -> Seq<char> {
    match decision {
        UpdateDecision::UpToDate => "me is already up to date: "@ + current,
        UpdateDecision::Newer => "the running me version "@ + current
            + " is newer than the latest published release "@ + latest
            + "; no update was installed"@,
        UpdateDecision::Install => "updating me: "@ + current + " -> "@ + latest,
    }
}

/// What is said of a decision.
pub fn decision_message(decision: UpdateDecision, latest_tag: &str, current_tag: &str) -> (r:
    String)
    ensures
        r@ == decision_text(decision, latest_tag@, current_tag@),
{
    match decision {
        UpdateDecision::UpToDate => {
            let mut message = "me is already up to date: ".to_owned();
            message.append(current_tag);
            message
        },
        UpdateDecision::Newer => {
            let mut message = "the running me version ".to_owned();
            message.append(current_tag);
            message.append(" is newer than the latest published release ");
            message.append(latest_tag);
            message.append("; no update was installed");
            message
        },
        UpdateDecision::Install => {
            let mut message = "updating me: ".to_owned();
            message.append(current_tag);
            message.append(" -> ");
            message.append(latest_tag);
            message
        },
    }
}

/// What is said where an update is done, or is going to be once this process has ended.
pub open spec fn update_text(latest: Seq<char>, executable: Seq<char>, after_exit: bool) -> Seq<
    char,
> {
    if after_exit {
        "downloaded me "@ + latest
            + "; Windows will replace the executable after this process exits\nexecutable: "@
            + executable + "\nglobal configuration: unchanged"@
    } else {
        "updated me to "@ + latest + "\nexecutable: "@ + executable
            + "\nglobal configuration: unchanged"@
    }
}

/// What is said where an update is done, or is going to be once this process has ended.
pub fn update_message(latest_tag: &str, executable: &str, after_exit: bool) -> (r: String)
    ensures
        r@ == update_text(latest_tag@, executable@, after_exit),
{
    if after_exit {
        let mut message = "downloaded me ".to_owned();
        message.append(latest_tag);
        message.append(
            "; Windows will replace the executable after this process exits\nexecutable: ",
        );
        message.append(executable);
        message.append("\nglobal configuration: unchanged");
        message
    } else {
        let mut message = "updated me to ".to_owned();
        message.append(latest_tag);
        message.append("\nexecutable: ");
        message.append(executable);
        message.append("\nglobal configuration: unchanged");
        message
    }
}

/// Whether `c` is a hexadecimal digit.
pub open spec fn is_hex_digit(c: char) -> bool {
    '0' <= c <= '9' || 'a' <= c <= 'f' || 'A' <= c <= 'F'
}

/// Whether `s` is a checksum: 64 hexadecimal digits.
pub open spec fn is_checksum(s: Seq<char>) -> bool {
    s.len() == 64 && forall|i: int| 0 <= i < s.len() ==> is_hex_digit(#[trigger] s[i])
}

/// `s` without the asterisks at its start.
pub open spec fn stars_skipped(s: Seq<char>) -> Seq<char>
    decreases s.len(),
{
    if s.len() > 0 && s[0] == '*' {
        stars_skipped(s.drop_first())
    } else {
        s
    }
}

/// Whether `line` of a manifest is about `asset`.
pub open spec fn is_entry_for(line: Seq<char>, asset: Seq<char>) -> bool {
    let words = words_of(line);
    words.len() >= 2 && stars_skipped(words[1]) == asset
}

/// The checksum that `line` of a manifest gives, in lower case.
pub open spec fn entry_checksum(line: Seq<char>) -> Seq<char> {
    lowered(words_of(line)[0])
}

/// What is wrong with a manifest.
#[derive(Clone, Copy, Debug, PartialEq, Eq, Structural)]
pub enum ManifestFault {
    Duplicate,
    Invalid,
}

/// What the entries for `asset` in `lines` come to: the checksum of the one there is, or what is
/// wrong first.
pub open spec fn manifest_entry(lines: Seq<Seq<char>>, asset: Seq<char>) -> Result<
    Option<Seq<char>>,
    ManifestFault,
>
    decreases lines.len(),
{
    if lines.len() == 0 {
        Ok(None)
    } else {
        match manifest_entry(lines.drop_last(), asset) {
            Err(fault) => Err(fault),
            Ok(found) => if !is_entry_for(lines.last(), asset) {
                Ok(found)
            } else if found is Some {
                Err(ManifestFault::Duplicate)
            } else if !is_checksum(entry_checksum(lines.last())) {
                Err(ManifestFault::Invalid)
            } else {
                Ok(Some(entry_checksum(lines.last())))
            },
        }
    }
}

/// The checksum that `manifest` gives for `asset`, or what is said where it gives none.
pub open spec fn manifest_checksum(manifest: Seq<char>, asset: Seq<char>) -> Result<
    Seq<char>,
    Seq<char>,
> {
    match manifest_entry(lines_of(manifest), asset) {
        Ok(Some(checksum)) => Ok(checksum),
        Ok(None) => Err(CHECKSUM_ASSET@ + " does not contain "@ + asset),
        Err(ManifestFault::Duplicate) => Err(
            CHECKSUM_ASSET@ + " contains duplicate entries for "@ + asset,
        ),
        Err(ManifestFault::Invalid) => Err(
            CHECKSUM_ASSET@ + " contains an invalid checksum for "@ + asset,
        ),
    }
}

proof fn lemma_fault_stays(
    lines: Seq<Seq<char>>,
    more: Seq<Seq<char>>,
    asset: Seq<char>,
)
    requires
        manifest_entry(lines, asset) is Err,
    ensures
        manifest_entry(lines + more, asset) == manifest_entry(lines, asset),
    decreases more.len(),
{
    if more.len() == 0 {
        assert(lines + more =~= lines);
    } else {
        lemma_fault_stays(lines, more.drop_last(), asset);
        assert((lines + more).drop_last() =~= lines + more.drop_last());
    }
}

/// Whether the line `at` of `lines` is the only one about `asset`.
pub open spec fn is_only_entry(lines: Seq<Seq<char>>, asset: Seq<char>, at: int) -> bool {
    &&& 0 <= at < lines.len()
    &&& is_entry_for(lines[at], asset)
    &&& forall|i: int| 0 <= i < lines.len() && i != at ==> !is_entry_for(#[trigger] lines[i], asset)
}

/// A checksum comes from the only entry for an asset, and a valid one. There is none where there
/// is no entry, and a fault where there are several or the entry is not valid.
pub proof fn law_one_entry_decides(lines: Seq<Seq<char>>, asset: Seq<char>)
    ensures
        match manifest_entry(lines, asset) {
            Ok(Some(checksum)) => is_checksum(checksum) && exists|at: int|
                #[trigger] is_only_entry(lines, asset, at) && checksum == entry_checksum(lines[at]),
            Ok(None) => forall|i: int|
                0 <= i < lines.len() ==> !is_entry_for(#[trigger] lines[i], asset),
            Err(ManifestFault::Duplicate) => exists|i: int, j: int|
                0 <= i < j < lines.len() && is_entry_for(#[trigger] lines[i], asset)
                    && is_entry_for(#[trigger] lines[j], asset),
            Err(ManifestFault::Invalid) => exists|i: int|
                0 <= i < lines.len() && is_entry_for(#[trigger] lines[i], asset) && !is_checksum(
                    entry_checksum(lines[i]),
                ),
        },
    decreases lines.len(),
{
    if lines.len() > 0 {
        let before = lines.drop_last();
        let last = lines.len() - 1;
        law_one_entry_decides(before, asset);
        assert(lines.last() == lines[last]);
        assert forall|i: int| 0 <= i < last implies #[trigger] before[i] == lines[i] by {}
        match manifest_entry(before, asset) {
            Ok(Some(checksum)) => {
                let at = choose|at: int|
                    #[trigger] is_only_entry(before, asset, at) && checksum == entry_checksum(
                        before[at],
                    );
                assert(before[at] == lines[at]);
                if is_entry_for(lines[last], asset) {
                    assert(is_entry_for(lines[at], asset) && at < last);
                } else {
                    assert forall|i: int| 0 <= i < lines.len() && i != at implies !is_entry_for(
                        #[trigger] lines[i],
                        asset,
                    ) by {
                        if i < last {
                            assert(!is_entry_for(before[i], asset));
                        }
                    }
                    assert(is_only_entry(lines, asset, at));
                }
            },
            Ok(None) => {
                assert forall|i: int| 0 <= i < last implies !is_entry_for(
                    #[trigger] lines[i],
                    asset,
                ) by {
                    assert(!is_entry_for(before[i], asset));
                }
                if is_entry_for(lines[last], asset) {
                    assert(is_only_entry(lines, asset, last));
                }
            },
            Err(ManifestFault::Duplicate) => {
                let (i, j) = choose|i: int, j: int|
                    0 <= i < j < before.len() && is_entry_for(#[trigger] before[i], asset)
                        && is_entry_for(#[trigger] before[j], asset);
                assert(before[i] == lines[i] && before[j] == lines[j]);
            },
            Err(ManifestFault::Invalid) => {
                let i = choose|i: int|
                    0 <= i < before.len() && is_entry_for(#[trigger] before[i], asset)
                        && !is_checksum(entry_checksum(before[i]));
                assert(before[i] == lines[i]);
            },
        }
    }
}

/// The text without the asterisks at its start.
fn skip_stars(text: &str) -> (r: String)
    ensures
        r@ == stars_skipped(text@),
{
    let chars = chars_of(text);
    let mut start: usize = 0;
    assert(chars@.skip(0) =~= chars@);
    while start < chars.len() && chars[start] == '*'
        invariant
            start <= chars@.len(),
            stars_skipped(chars@.skip(start as int)) == stars_skipped(chars@),
        decreases chars@.len() - start,
    {
        assert(chars@.skip(start as int)[0] == chars@[start as int]);
        assert(chars@.skip(start as int).drop_first() =~= chars@.skip(start + 1));
        start = start + 1;
    }
    let ghost rest = chars@.skip(start as int);
    assert(stars_skipped(rest) == rest) by {
        if start < chars@.len() {
            assert(rest[0] == chars@[start as int]);
        }
    }
    assert(chars@.subrange(start as int, chars@.len() as int) =~= rest);
    text_range(&chars, start, chars.len())
}

/// Whether the text is a checksum.
fn is_checksum_text(text: &str) -> (r: bool)
    ensures
        r == is_checksum(text@),
{
    let chars = chars_of(text);
    if chars.len() != 64 {
        return false;
    }
    for i in 0..chars.len()
        invariant
            chars@ == text@,
            chars@.len() == 64,
            forall|j: int| 0 <= j < i ==> is_hex_digit(#[trigger] chars@[j]),
    {
        let c = chars[i];
        if !(('0' <= c && c <= '9') || ('a' <= c && c <= 'f') || ('A' <= c && c <= 'F')) {
            assert(!is_hex_digit(text@[i as int]));
            return false;
        }
    }
    true
}

/// A text about an asset.
fn about_asset(middle: &str, asset: &str) -> (r: String)
    ensures
        r@ == CHECKSUM_ASSET@ + middle@ + asset@,
{
    let mut message = CHECKSUM_ASSET.to_owned();
    message.append(middle);
    message.append(asset);
    message
}

/// The checksum that a manifest gives for an asset. There must be one entry for it, and a valid
/// one.
pub fn checksum_for_asset(manifest: &str, asset: &str) -> (r: Result<String, String>)
    ensures
        match r {
            Ok(checksum) => manifest_checksum(manifest@, asset@) == Ok::<Seq<char>, Seq<char>>(
                checksum@,
            ),
            Err(message) => manifest_checksum(manifest@, asset@) == Err::<Seq<char>, Seq<char>>(
                message@,
            ),
        },
{
    let lines = split_lines(manifest);
    let ghost all = texts_view(lines@);
    let mut found: Option<String> = None;
    for i in 0..lines.len()
        invariant
            all == texts_view(lines@),
            all == lines_of(manifest@),
            manifest_entry(all.take(i as int), asset@) == Ok::<Option<Seq<char>>, ManifestFault>(
                match found {
                    Some(checksum) => Some(checksum@),
                    None => None,
                },
            ),
    {
        assert(all.take(i + 1).drop_last() =~= all.take(i as int));
        assert(all.take(i + 1).last() == lines@[i as int]@);
        assert(all.take(i + 1) + all.skip(i + 1) =~= all);
        let words = split_words(&lines[i]);
        let ghost fields = texts_view(words@);
        let mut matches_asset = false;
        if words.len() >= 2 {
            assert(fields[0] == words@[0]@ && fields[1] == words@[1]@);
            matches_asset = same_text(&skip_stars(&words[1]), asset);
        }
        if matches_asset {
            if found.is_some() {
                proof {
                    lemma_fault_stays(all.take(i + 1), all.skip(i + 1), asset@);
                }
                return Err(about_asset(" contains duplicate entries for ", asset));
            }
            let checksum = lowered_text(&words[0]);
            if !is_checksum_text(&checksum) {
                proof {
                    lemma_fault_stays(all.take(i + 1), all.skip(i + 1), asset@);
                }
                return Err(about_asset(" contains an invalid checksum for ", asset));
            }
            found = Some(checksum);
        }
    }
    assert(all.take(all.len() as int) =~= all);
    match found {
        Some(checksum) => Ok(checksum),
        None => Err(about_asset(" does not contain ", asset)),
    }
}

/// The SHA-256 digest of `bytes`.
pub uninterp spec fn sha256_of(bytes: Seq<u8>) -> Seq<u8>;

/// `Sha256::digest`: the digest of the bytes, which has 32 bytes.
#[verifier::external_body]
fn sha256(bytes: &[u8]) -> (r: Vec<u8>)
    ensures
        r@ == sha256_of(bytes@),
        r@.len() == 32,
{
    Sha256::digest(bytes).to_vec()
}

/// Whether a file of a release with the digest `digest` is what `manifest` says it is, or what
/// is said where it is not.
pub open spec fn digest_outcome(digest: Seq<u8>, manifest: Seq<char>, asset: Seq<char>) -> Result<
    (),
    Seq<char>,
> {
    match manifest_checksum(manifest, asset) {
        Err(message) => Err(message),
        Ok(expected) => if hex_of(digest) == expected {
            Ok(())
        } else {
            Err(
                "release checksum mismatch for "@ + asset + ": expected "@ + expected
                    + ", received "@ + hex_of(digest),
            )
        },
    }
}

/// Holds the digest of a downloaded file against the manifest.
pub fn verify_digest(digest: &[u8], manifest: &str, asset: &str) -> (r: Result<(), String>)
    ensures
        match r {
            Ok(_) => digest_outcome(digest@, manifest@, asset@) is Ok,
            Err(message) => digest_outcome(digest@, manifest@, asset@) == Err::<(), Seq<char>>(
                message@,
            ),
        },
{
    let expected = match checksum_for_asset(manifest, asset) {
        Ok(expected) => expected,
        Err(message) => return Err(message),
    };
    let actual = hex_text(digest);
    if same_text(&actual, &expected) {
        return Ok(());
    }
    let mut message = "release checksum mismatch for ".to_owned();
    message.append(asset);
    message.append(": expected ");
    message.append(&expected);
    message.append(", received ");
    message.append(&actual);
    Err(message)
}

/// Holds a downloaded file against the manifest. An empty one is never what was published.
pub fn verify_release_bytes(bytes: &[u8], manifest: &str, asset: &str) -> (r: Result<(), String>)
    ensures
        match r {
            Ok(_) => bytes@.len() > 0 && digest_outcome(sha256_of(bytes@), manifest@, asset@)
                is Ok,
            Err(message) => if bytes@.len() == 0 {
                message@ == "downloaded release asset is empty: "@ + asset@
            } else {
                digest_outcome(sha256_of(bytes@), manifest@, asset@) == Err::<(), Seq<char>>(
                    message@,
                )
            },
        },
{
    if bytes.len() == 0 {
        let mut message = "downloaded release asset is empty: ".to_owned();
        message.append(asset);
        return Err(message);
    }
    verify_digest(&sha256(bytes), manifest, asset)
}

/// The first switch of the helper that replaces the program on Windows.
pub const POWERSHELL_NO_LOGO: &'static str = "-NoLogo";

/// The second switch of the helper.
pub const POWERSHELL_NO_PROFILE: &'static str = "-NoProfile";

/// The third switch of the helper.
pub const POWERSHELL_NON_INTERACTIVE: &'static str = "-NonInteractive";

/// The switches of the helper that replaces the program on Windows.
pub fn windows_update_powershell_args() -> (r: [&'static str; 3])
    ensures
        r@[0]@ == POWERSHELL_NO_LOGO@,
        r@[1]@ == POWERSHELL_NO_PROFILE@,
        r@[2]@ == POWERSHELL_NON_INTERACTIVE@,
{
    [POWERSHELL_NO_LOGO, POWERSHELL_NO_PROFILE, POWERSHELL_NON_INTERACTIVE]
}

/// The script that moves `source` to `target` once the process has ended, up to fifty times, and
/// removes it where that fails.
pub fn windows_update_script(process_id: u32, source: &str, target: &str) -> (r: String)
    ensures
        r@ == "$ErrorActionPreference='Stop'; Wait-Process -Id "@ + decimal(process_id as nat)
            + " -ErrorAction SilentlyContinue; $done=$false; for($i=0; $i -lt 50; $i++) { try { Move-Item -LiteralPath '"@
            + source@ + "' -Destination '"@ + target@
            + "' -Force; $done=$true; break } catch { Start-Sleep -Milliseconds 200 } }; if(-not $done) { Remove-Item -LiteralPath '"@
            + source@ + "' -Force -ErrorAction SilentlyContinue; exit 1 }"@,
{
    let mut script = "$ErrorActionPreference='Stop'; Wait-Process -Id ".to_owned();
    script.append(&decimal_text(process_id as u64));
    script.append(
        " -ErrorAction SilentlyContinue; $done=$false; for($i=0; $i -lt 50; $i++) { try { Move-Item -LiteralPath '",
    );
    script.append(source);
    script.append("' -Destination '");
    script.append(target);
    script.append(
        "' -Force; $done=$true; break } catch { Start-Sleep -Milliseconds 200 } }; if(-not $done) { Remove-Item -LiteralPath '",
    );
    script.append(source);
    script.append("' -Force -ErrorAction SilentlyContinue; exit 1 }");
    script
}

/// `s` with each apostrophe twice.
pub open spec fn apostrophes_doubled(s: Seq<char>) -> Seq<char>
    decreases s.len(),
{
    if s.len() == 0 {
        s
    } else if s.last() == '\'' {
        apostrophes_doubled(s.drop_last()).push('\'').push('\'')
    } else {
        apostrophes_doubled(s.drop_last()).push(s.last())
    }
}

/// `path` without what makes Windows take it as it stands.
pub open spec fn plain_path(path: Seq<char>) -> Seq<char> {
    if occurs_at(path, "\\\\?\\UNC\\"@, 0) {
        "\\\\"@ + path.skip("\\\\?\\UNC\\"@.len() as int)
    } else if occurs_at(path, "\\\\?\\"@, 0) {
        path.skip("\\\\?\\"@.len() as int)
    } else {
        path
    }
}

/// What a script reads between apostrophes where `s` stands there: one apostrophe for two.
/// Nothing where one stands alone, since it would end the text.
pub open spec fn read_literal(s: Seq<char>) -> Option<Seq<char>>
    decreases s.len(),
{
    if s.len() == 0 {
        Some(s)
    } else if s.last() != '\'' {
        match read_literal(s.drop_last()) {
            Some(text) => Some(text.push(s.last())),
            None => None,
        }
    } else if s.len() >= 2 && s[s.len() - 2] == '\'' {
        match read_literal(s.take(s.len() - 2)) {
            Some(text) => Some(text.push('\'')),
            None => None,
        }
    } else {
        None
    }
}

/// A script reads a path between apostrophes as it is, whatever characters it has.
pub proof fn law_literals_are_read_as_written(path: Seq<char>)
    ensures
        read_literal(apostrophes_doubled(path)) == Some(path),
    decreases path.len(),
{
    if path.len() > 0 {
        let rest = apostrophes_doubled(path.drop_last());
        law_literals_are_read_as_written(path.drop_last());
        if path.last() == '\'' {
            let doubled = rest.push('\'').push('\'');
            assert(doubled.take(doubled.len() - 2) =~= rest);
        } else {
            assert(rest.push(path.last()).drop_last() =~= rest);
        }
        assert(path.drop_last().push(path.last()) =~= path);
    }
}

/// The path as it stands between apostrophes in a script.
pub fn powershell_literal_text(path: &str) -> (r: String)
    ensures
        r@ == apostrophes_doubled(plain_path(path@)),
{
    let chars = chars_of(path);
    let network = chars_of("\\\\?\\UNC\\");
    let verbatim = chars_of("\\\\?\\");
    let mut plain = String::new();
    if pattern_at(&chars, &network, 0) {
        plain.append("\\\\");
        plain.append(&text_range(&chars, network.len(), chars.len()));
    } else if pattern_at(&chars, &verbatim, 0) {
        plain.append(&text_range(&chars, verbatim.len(), chars.len()));
    } else {
        plain.append(path);
    }
    assert(plain@ =~= plain_path(path@));
    let mut literal = String::new();
    for c in it: plain.as_str().chars()
        invariant
            it.seq() == plain@,
            literal@ == apostrophes_doubled(plain@.take(it.index() as int)),
    {
        assert(plain@.take(it.index() + 1).drop_last() =~= plain@.take(it.index() as int));
        literal.push(c);
        if c == '\'' {
            literal.push(c);
        }
    }
    assert(plain@.take(plain@.len() as int) =~= plain@);
    literal
}

/// Whether `suffix` is what eight bytes are in hexadecimal digits.
pub open spec fn is_suffix(suffix: Seq<char>) -> bool {
    exists|bytes: Seq<u8>| bytes.len() == 8 && suffix == #[trigger] hex_of(bytes)
}

/// The random part of a name, given what asking for random bytes has come to: their hexadecimal
/// digits. Without them there is none, for the same reason.
pub fn suffix_of(random: Result<Vec<u8>, String>) -> (r: Result<String, String>)
    ensures
        match random {
            Ok(bytes) => r matches Ok(suffix) && suffix@ == hex_of(bytes@),
            Err(reason) => r == Err::<String, String>(reason),
        },
{
    match random {
        Ok(bytes) => Ok(hex_text(&bytes)),
        Err(reason) => Err(reason),
    }
}

/// A random part of a name, or why there is none: sixteen hexadecimal digits, whatever they are.
pub fn random_suffix() -> (r: Result<String, String>)
    ensures
        r matches Ok(suffix) ==> is_suffix(suffix@),
{
    suffix_of(random_bytes(8))
}

/// The name under which an update of `file` is put beside it.
pub fn staging_name(file: &str, suffix: &str) -> (r: String)
    ensures
        r@ == "."@ + file@ + ".update-"@ + suffix@,
{
    let mut name = ".".to_owned();
    name.append(file);
    name.append(".update-");
    name.append(suffix);
    name
}

/// The name of the directory for downloads.
pub fn download_directory_name(suffix: &str) -> (r: String)
    ensures
        r@ == "me-update-"@ + suffix@,
{
    let mut name = "me-update-".to_owned();
    name.append(suffix);
    name
}

/// How often a free name is looked for.
pub const ALLOCATION_ATTEMPTS: u32 = 16;

/// How an attempt to take a name came out.
#[derive(Clone, Copy, Debug, PartialEq, Eq, Structural)]
pub enum AttemptOutcome {
    Taken,
    Occupied,
    Failed,
}

/// What follows an attempt to take a name.
#[derive(Clone, Copy, Debug, PartialEq, Eq, Structural)]
pub enum AttemptStep {
    Done,
    Retry,
    GiveUp,
    Fail,
}

/// What follows an attempt to take a name, where `tried` is how many there have been with it.
pub fn after_attempt(tried: u32, outcome: AttemptOutcome) -> (r: AttemptStep)
    ensures
        r == match outcome {
            AttemptOutcome::Taken => AttemptStep::Done,
            AttemptOutcome::Failed => AttemptStep::Fail,
            AttemptOutcome::Occupied => if tried < ALLOCATION_ATTEMPTS {
                AttemptStep::Retry
            } else {
                AttemptStep::GiveUp
            },
        },
{
    match outcome {
        AttemptOutcome::Taken => AttemptStep::Done,
        AttemptOutcome::Failed => AttemptStep::Fail,
        AttemptOutcome::Occupied => if tried < ALLOCATION_ATTEMPTS {
            AttemptStep::Retry
        } else {
            AttemptStep::GiveUp
        },
    }
}

} // verus!
