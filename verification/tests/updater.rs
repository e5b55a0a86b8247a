//! Releases and updates.

use me::random::random_bytes;
use me::updater::after_attempt;
use me::updater::check_release_tag;
use me::updater::checksum_for_asset;
use me::updater::current_tag;
use me::updater::decide_update;
use me::updater::decision_message;
use me::updater::download_directory_name;
use me::updater::download_failure;
use me::updater::latest_release_url;
use me::updater::powershell_literal_text;
use me::updater::query_failure;
use me::updater::random_suffix;
use me::updater::suffix_of;
use me::updater::release_asset;
use me::updater::release_version;
use me::updater::response_detail;
use me::updater::run::UpdateAction;
use me::updater::run::UpdateEvent;
use me::updater::run::UpdatePhase;
use me::updater::run::UpdateRun;
use me::updater::staging_name;
use me::updater::update_message;
use me::updater::verify_digest;
use me::updater::verify_release_bytes;
use me::updater::windows_update_powershell_args;
use me::updater::windows_update_script;
use me::updater::AttemptOutcome;
use me::updater::AttemptStep;
use me::updater::GitHubRelease;
use me::updater::GitHubReleaseAsset;
use me::updater::UpdateDecision;
use me::updater::UpdatePlatform;

#[test]
fn release_assets_match_every_supported_target() {
    assert_eq!(
        UpdatePlatform::for_target("macos", "aarch64")
            .unwrap()
            .asset,
        "me-macos-arm64"
    );
    assert_eq!(
        UpdatePlatform::for_target("macos", "x86_64").unwrap().asset,
        "me-macos-x86_64"
    );
    assert_eq!(
        UpdatePlatform::for_target("linux", "aarch64")
            .unwrap()
            .asset,
        "me-linux-arm64"
    );
    assert_eq!(
        UpdatePlatform::for_target("linux", "x86_64").unwrap().asset,
        "me-linux-x86_64"
    );
    assert_eq!(
        UpdatePlatform::for_target("windows", "x86_64")
            .unwrap()
            .asset,
        "me-windows-x86_64.exe"
    );
    assert!(UpdatePlatform::for_target("windows", "aarch64").is_err());
}

#[test]
fn release_versions_are_numeric_and_never_require_a_downgrade() {
    assert_eq!(release_version("v0.0.164").unwrap(), (0, 0, 164));
    assert_eq!(release_version("1.2.3-beta.1").unwrap(), (1, 2, 3));
    assert!(release_version("v1.2").is_err());
    assert!(release_version("latest").is_err());
    assert!(release_version("v0.0.163").unwrap() < release_version("v0.0.164").unwrap());
}

#[test]
fn windows_helper_normalizes_verbatim_paths_and_quotes_literals() {
    assert_eq!(
        windows_update_powershell_args(),
        ["-NoLogo", "-NoProfile", "-NonInteractive"]
    );
    assert!(
        windows_update_powershell_args()
            .iter()
            .all(|argument| !argument.eq_ignore_ascii_case("-WindowStyle"))
    );
    assert_eq!(
        powershell_literal_text(r"\\?\C:\Users\O'Brien\me.exe"),
        r"C:\Users\O''Brien\me.exe"
    );
    assert_eq!(
        powershell_literal_text(r"\\?\UNC\server\share\me.exe"),
        r"\\server\share\me.exe"
    );
    let script = windows_update_script(42, "C:\\staged-me.exe", "C:\\me.exe");
    assert!(script.contains("Wait-Process -Id 42"));
    assert!(script.contains("Move-Item -LiteralPath 'C:\\staged-me.exe'"));
    assert!(script.contains("Remove-Item -LiteralPath 'C:\\staged-me.exe'"));
}

#[test]
fn checksum_manifest_requires_one_exact_valid_entry() {
    let digest = "a".repeat(64);
    let manifest = format!(
        "{}  me-linux-x86_64\n{} *me-windows-x86_64.exe\n",
        digest,
        "B".repeat(64)
    );
    assert_eq!(
        checksum_for_asset(&manifest, "me-linux-x86_64").unwrap(),
        digest
    );
    assert_eq!(
        checksum_for_asset(&manifest, "me-windows-x86_64.exe").unwrap(),
        "b".repeat(64)
    );
    assert!(checksum_for_asset(&manifest, "me").is_err());
    assert!(checksum_for_asset("bad  me-linux-x86_64", "me-linux-x86_64").is_err());
    let duplicate = format!("{digest}  me\n{digest}  me\n");
    assert!(checksum_for_asset(&duplicate, "me").is_err());
}

#[test]
fn public_release_metadata_selects_assets_by_exact_name() {
    let release = GitHubRelease {
        tag_name: "v0.0.267".into(),
        assets: vec![
            GitHubReleaseAsset {
                name: "me-linux-x86_64".into(),
                browser_download_url: "https://github.com/LytsingStudio/me-rust/releases/download/v0.0.267/me-linux-x86_64".into(),
            },
            GitHubReleaseAsset {
                name: "SHA256SUMS".into(),
                browser_download_url: "https://github.com/LytsingStudio/me-rust/releases/download/v0.0.267/SHA256SUMS".into(),
            },
        ],
    };

    assert_eq!(release.tag_name, "v0.0.267");
    assert_eq!(
        release_asset(&release, "me-linux-x86_64").unwrap().name,
        "me-linux-x86_64"
    );
    assert!(release_asset(&release, "me-linux-arm64").is_err());
    assert_eq!(
        release_asset(&release, "other").unwrap_err(),
        "release v0.0.267 does not contain required asset other"
    );
}

#[test]
fn release_verification_hashes_the_exact_downloaded_bytes() {
    let manifest =
        "ba7816bf8f01cfea414140de5dae2223b00361a396177a9cb410ff61f20015ad  me-linux-x86_64\n";
    verify_release_bytes(b"abc", manifest, "me-linux-x86_64").unwrap();
    assert!(verify_release_bytes(b"changed", manifest, "me-linux-x86_64").is_err());
    assert_eq!(
        verify_release_bytes(b"", manifest, "me-linux-x86_64").unwrap_err(),
        "downloaded release asset is empty: me-linux-x86_64"
    );
    assert_eq!(
        verify_release_bytes(b"abc", "", "me").unwrap_err(),
        "SHA256SUMS does not contain me"
    );
}

#[test]
fn a_digest_is_held_against_its_entry() {
    let digest = [0xab_u8; 32];
    let manifest = format!("{}  me\n", "AB".repeat(32));
    assert!(verify_digest(&digest, &manifest, "me").is_ok());
    assert_eq!(
        verify_digest(&[0x0f], &manifest, "me").unwrap_err(),
        format!(
            "release checksum mismatch for me: expected {}, received 0f",
            "ab".repeat(32)
        )
    );
}

#[test]
fn manifests_are_read_by_their_words() {
    let digest = "0".repeat(64);
    let manifest = format!("only-one-word\r\n\n   {digest} \t **me trailing words\r\n");
    assert_eq!(checksum_for_asset(&manifest, "me").unwrap(), digest);
    assert_eq!(
        checksum_for_asset("bad  me", "me").unwrap_err(),
        "SHA256SUMS contains an invalid checksum for me"
    );
    assert_eq!(
        checksum_for_asset(&format!("{manifest}{manifest}"), "me").unwrap_err(),
        "SHA256SUMS contains duplicate entries for me"
    );
    assert_eq!(
        checksum_for_asset(&format!("{manifest}bad me"), "me").unwrap_err(),
        "SHA256SUMS contains duplicate entries for me"
    );
}

#[test]
fn unusual_tags_are_read_or_refused() {
    assert_eq!(release_version("v18446744073709551615.0.00").unwrap(), (u64::MAX, 0, 0));
    assert_eq!(
        release_version("v18446744073709551616.0.0").unwrap_err(),
        "invalid me release tag: v18446744073709551616.0.0"
    );
    assert!(release_version("vv1.2.3").is_err());
    assert!(release_version("1.2.3.4").is_err());
    assert!(release_version("1..3").is_err());
    assert!(release_version("").is_err());
    assert_eq!(release_version("1.2.3+build-4").unwrap(), (1, 2, 3));
}

#[test]
fn updates_never_go_back() {
    assert_eq!(decide_update("v1.0.0", "v1.0.0").unwrap(), UpdateDecision::UpToDate);
    assert_eq!(decide_update("v0.9.9", "v1.0.0").unwrap(), UpdateDecision::Newer);
    assert_eq!(decide_update("v1.0.1", "v1.0.0").unwrap(), UpdateDecision::Install);
    assert_eq!(decide_update("1.0.0", "v1.0.0").unwrap(), UpdateDecision::Install);
    assert_eq!(decide_update("latest", "v1.0.0").unwrap_err(), "invalid me release tag: latest");
    assert_eq!(decide_update("v1.0.0", "now").unwrap_err(), "invalid me release tag: now");
    assert_eq!(decide_update("odd", "odd").unwrap(), UpdateDecision::UpToDate);
}

#[test]
fn messages_name_what_they_are_about() {
    assert_eq!(current_tag(), "v0.0.267");
    assert_eq!(
        decision_message(UpdateDecision::UpToDate, "v1", "v1"),
        "me is already up to date: v1"
    );
    assert_eq!(
        decision_message(UpdateDecision::Newer, "v1", "v2"),
        "the running me version v2 is newer than the latest published release v1; no update was installed"
    );
    assert_eq!(decision_message(UpdateDecision::Install, "v2", "v1"), "updating me: v1 -> v2");
    assert_eq!(
        update_message("v2", "/bin/me", false),
        "updated me to v2\nexecutable: /bin/me\nglobal configuration: unchanged"
    );
    assert!(update_message("v2", "me.exe", true).contains("after this process exits"));
    assert_eq!(
        latest_release_url(),
        "https://api.github.com/repos/LytsingStudio/me-rust/releases/latest"
    );
    assert_eq!(staging_name("me", "ff"), ".me.update-ff");
    assert_eq!(download_directory_name("ff"), "me-update-ff");
    assert_eq!(
        UpdatePlatform::for_target("plan9", "mips").unwrap_err(),
        "me update does not support plan9/mips"
    );
    assert!(check_release_tag("v1").is_ok());
    assert_eq!(
        check_release_tag(" \n").unwrap_err(),
        "GitHub returned an empty latest release tag"
    );
}

#[test]
fn answers_are_quoted_in_part() {
    assert_eq!(response_detail("  \n "), "");
    assert_eq!(response_detail(" not found "), ": not found");
    let long = "é".repeat(600);
    assert_eq!(response_detail(&long), format!(": {}", "é".repeat(512)));
    assert_eq!(
        query_failure("404 Not Found", "x"),
        "cannot query the latest public me release: HTTP 404 Not Found: x"
    );
    assert_eq!(
        download_failure("me", "500", ""),
        "cannot download release asset me: HTTP 500"
    );
}

#[test]
fn random_suffixes_are_sixteen_digits_and_differ() {
    let first = random_suffix().unwrap();
    let second = random_suffix().unwrap();
    assert_eq!(first.len(), 16);
    assert!(first.chars().all(|c| c.is_ascii_hexdigit()));
    assert_ne!(first, second);
    assert_ne!(first, "0".repeat(16));
}

#[test]
fn names_are_looked_for_sixteen_times() {
    assert_eq!(after_attempt(1, AttemptOutcome::Taken), AttemptStep::Done);
    assert_eq!(after_attempt(15, AttemptOutcome::Occupied), AttemptStep::Retry);
    assert_eq!(after_attempt(16, AttemptOutcome::Occupied), AttemptStep::GiveUp);
    assert_eq!(after_attempt(1, AttemptOutcome::Failed), AttemptStep::Fail);
}

fn release(tag: &str, names: &[&str]) -> GitHubRelease {
    GitHubRelease {
        tag_name: tag.to_owned(),
        assets: names
            .iter()
            .map(|name| GitHubReleaseAsset {
                name: (*name).to_owned(),
                browser_download_url: format!("https://example.test/{name}"),
            })
            .collect(),
    }
}

fn started(current: &str) -> UpdateRun {
    UpdateRun::start("linux", "x86_64", current.to_owned()).unwrap()
}

#[test]
fn an_update_goes_from_the_release_to_the_executable() {
    let mut run = started("v1.0.0");
    let latest = release("v1.0.1", &["SHA256SUMS", "me-linux-x86_64"]);
    assert!(matches!(
        run.step(UpdateEvent::Release(latest)),
        UpdateAction::MakeDirectory(message) if message == "updating me: v1.0.0 -> v1.0.1"
    ));
    assert!(matches!(
        run.step(UpdateEvent::DirectoryMade),
        UpdateAction::Download(name, url)
            if name == "me-linux-x86_64" && url == "https://example.test/me-linux-x86_64"
    ));
    assert!(matches!(
        run.step(UpdateEvent::Downloaded),
        UpdateAction::Download(name, url)
            if name == "SHA256SUMS" && url == "https://example.test/SHA256SUMS"
    ));
    assert!(matches!(run.step(UpdateEvent::Downloaded), UpdateAction::Read));
    let manifest = "ba7816bf8f01cfea414140de5dae2223b00361a396177a9cb410ff61f20015ad  me-linux-x86_64\n";
    assert!(matches!(
        run.step(UpdateEvent::Read(Some(b"abc".to_vec()), Ok(manifest.to_owned()))),
        UpdateAction::Deploy
    ));
    assert!(matches!(
        run.step(UpdateEvent::Deployed("/usr/bin/me".to_owned(), false)),
        UpdateAction::Finish(message)
            if message == "updated me to v1.0.1\nexecutable: /usr/bin/me\nglobal configuration: unchanged"
    ));
    assert_eq!(run.phase, UpdatePhase::Ended);
}

#[test]
fn an_update_ends_where_there_is_nothing_newer() {
    let mut run = started("v1.0.0");
    assert!(matches!(
        run.step(UpdateEvent::Release(release("v1.0.0", &[]))),
        UpdateAction::Finish(message) if message == "me is already up to date: v1.0.0"
    ));
    let mut run = started("v1.0.0");
    assert!(matches!(
        run.step(UpdateEvent::Release(release("v0.9.9", &[]))),
        UpdateAction::Finish(message) if message.ends_with("no update was installed")
    ));
    let mut run = started("v1.0.0");
    assert!(matches!(
        run.step(UpdateEvent::Release(release(" ", &[]))),
        UpdateAction::Fail(message) if message == "GitHub returned an empty latest release tag"
    ));
    let mut run = started("v1.0.0");
    assert!(matches!(
        run.step(UpdateEvent::Release(release("later", &[]))),
        UpdateAction::Fail(message) if message == "invalid me release tag: later"
    ));
    assert!(UpdateRun::start("plan9", "x86_64", "v1.0.0".to_owned()).is_err());
}

#[test]
fn an_update_needs_each_of_its_files() {
    let mut run = started("v1.0.0");
    run.step(UpdateEvent::Release(release("v2.0.0", &["SHA256SUMS"])));
    assert!(matches!(
        run.step(UpdateEvent::DirectoryMade),
        UpdateAction::Fail(message)
            if message == "release v2.0.0 does not contain required asset me-linux-x86_64"
    ));
    let mut run = started("v1.0.0");
    run.step(UpdateEvent::Release(release("v2.0.0", &["me-linux-x86_64"])));
    run.step(UpdateEvent::DirectoryMade);
    assert!(matches!(
        run.step(UpdateEvent::Downloaded),
        UpdateAction::Fail(message)
            if message == "release v2.0.0 does not contain required asset SHA256SUMS"
    ));
}

#[test]
fn nothing_is_deployed_but_what_was_published() {
    let reading = || UpdateRun {
        phase: UpdatePhase::Reading,
        asset: "me-linux-x86_64",
        current_tag: "v1.0.0".to_owned(),
        release: Some(release("v1.0.1", &[])),
    };
    let failure = |event: UpdateEvent| match reading().step(event) {
        UpdateAction::Fail(message) => message,
        other => panic!("unexpected {other:?}"),
    };
    assert_eq!(
        failure(UpdateEvent::Read(None, Ok(String::new()))),
        "release asset was not downloaded: me-linux-x86_64"
    );
    assert_eq!(
        failure(UpdateEvent::Read(Some(Vec::new()), Err("gone".to_owned()))),
        "downloaded release asset is empty: me-linux-x86_64"
    );
    assert_eq!(
        failure(UpdateEvent::Read(Some(vec![1]), Err("gone".to_owned()))),
        "cannot read downloaded SHA256SUMS: gone"
    );
    assert_eq!(
        failure(UpdateEvent::Read(Some(vec![1]), Ok(String::new()))),
        "SHA256SUMS does not contain me-linux-x86_64"
    );
    assert!(
        failure(UpdateEvent::Read(
            Some(vec![1]),
            Ok(format!("{} me-linux-x86_64", "0".repeat(64)))
        ))
        .starts_with("release checksum mismatch for me-linux-x86_64: expected 000")
    );
    assert_eq!(failure(UpdateEvent::Failed("disk".to_owned())), "disk");
}

#[test]
fn suffixes_are_made_of_the_bytes_there_are() {
    assert_eq!(suffix_of(Ok(vec![0x00, 0xff, 0x1a])).unwrap(), "00ff1a");
    assert_eq!(suffix_of(Err("no bytes".to_owned())).unwrap_err(), "no bytes");
    assert!(random_bytes(0).unwrap().is_empty());
    assert_eq!(random_bytes(5).unwrap().len(), 5);
}
