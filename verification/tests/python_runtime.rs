//! The Python that comes along.

use me::python_runtime::escaped_path_message;
use me::python_runtime::install::InstallAction;
use me::python_runtime::install::InstallEvent;
use me::python_runtime::install::InstallPhase;
use me::python_runtime::install::InstallRun;
use me::python_runtime::interpreter_path;
use me::python_runtime::invalid_path_message;
use me::python_runtime::is_python_archive_path;
use me::python_runtime::marker_is_valid;
use me::python_runtime::marker_text;
use me::python_runtime::runtime_is_valid;
use me::python_runtime::staging_name;
use me::python_runtime::PathPart;

fn normal(name: &str) -> PathPart {
    PathPart::Normal(name.to_owned())
}

#[test]
fn archive_paths_stay_below_their_directory() {
    assert!(is_python_archive_path(&vec![normal("python")]));
    assert!(is_python_archive_path(&vec![normal("python"), normal("bin"), normal("python3.12")]));
    assert!(!is_python_archive_path(&vec![]));
    assert!(!is_python_archive_path(&vec![normal("other")]));
    assert!(!is_python_archive_path(&vec![PathPart::Special, normal("python")]));
    assert!(!is_python_archive_path(&vec![normal("python"), PathPart::Special]));
    assert_eq!(
        invalid_path_message("../x"),
        "embedded Python archive contains an invalid path: ../x"
    );
    assert_eq!(
        escaped_path_message("x"),
        "embedded Python archive entry escaped its install root: x"
    );
}

#[test]
fn markers_name_the_runtime_and_its_checksum() {
    assert_eq!(marker_text("id", "sum"), "id\nsum\n");
    assert!(marker_is_valid(Some("id\nsum\n"), "id", "sum"));
    assert!(!marker_is_valid(Some("id\nsum"), "id", "sum"));
    assert!(!marker_is_valid(None, "id", "sum"));
    assert!(runtime_is_valid(true, true, true));
    assert!(!runtime_is_valid(true, true, false));
}

fn checked(valid: bool, present: bool) -> InstallEvent {
    InstallEvent::Checked { valid, present }
}

fn failed(reason: &str) -> InstallEvent {
    InstallEvent::Failed(reason.to_owned())
}

#[test]
fn names_and_paths_of_an_installation() {
    assert_eq!(interpreter_path(true), "python.exe");
    assert_eq!(interpreter_path(false), "bin/python3.12");
    assert_eq!(
        staging_name(7, 340_282_366_920_938_463_463_374_607_431_768_211_455),
        ".install-7-340282366920938463463374607431768211455"
    );
}

#[test]
fn a_valid_runtime_is_ready_at_once() {
    let mut run = InstallRun::start();
    assert!(matches!(run.step(checked(true, true)), InstallAction::Ready));
    assert!(matches!(run.phase, InstallPhase::Ended));
}

#[test]
fn a_runtime_is_installed_step_by_step_and_checked_in_the_end() {
    let mut run = InstallRun::start();
    assert!(matches!(run.step(checked(false, true)), InstallAction::RemoveRuntime));
    assert!(matches!(run.step(InstallEvent::Done), InstallAction::CreateStaging));
    assert!(matches!(run.step(InstallEvent::Done), InstallAction::Extract));
    assert!(matches!(run.step(InstallEvent::Done), InstallAction::FindInterpreter));
    assert!(matches!(run.step(InstallEvent::Found(true)), InstallAction::WriteMarker));
    assert!(matches!(run.step(InstallEvent::Done), InstallAction::Move));
    assert!(matches!(run.step(InstallEvent::Done), InstallAction::RemoveStaging));
    assert!(matches!(run.step(failed("ignored")), InstallAction::Check));
    assert!(matches!(run.step(checked(true, true)), InstallAction::Ready));
}

#[test]
fn what_was_unpacked_is_removed_whatever_fails() {
    let mut run = InstallRun::start();
    assert!(matches!(run.step(checked(false, false)), InstallAction::CreateStaging));
    assert!(matches!(run.step(InstallEvent::Done), InstallAction::Extract));
    assert!(matches!(run.step(failed("broken")), InstallAction::RemoveStaging));
    assert!(
        matches!(run.step(InstallEvent::Done), InstallAction::Fail(reason) if reason == "broken")
    );

    let mut run = InstallRun { phase: InstallPhase::Finding };
    assert!(matches!(run.step(InstallEvent::Found(false)), InstallAction::RemoveStaging));
    assert!(matches!(
        run.step(InstallEvent::Done),
        InstallAction::Fail(reason) if reason == "embedded Python archive has no target interpreter"
    ));

    let mut run = InstallRun { phase: InstallPhase::Moving };
    assert!(matches!(run.step(failed("busy")), InstallAction::Check));
    assert!(matches!(run.step(checked(false, false)), InstallAction::RemoveStaging));
    assert!(
        matches!(run.step(InstallEvent::Done), InstallAction::Fail(reason) if reason == "busy")
    );

    let mut run = InstallRun { phase: InstallPhase::Moving };
    assert!(matches!(run.step(failed("busy")), InstallAction::Check));
    assert!(matches!(run.step(checked(true, true)), InstallAction::RemoveStaging));
    assert!(matches!(run.step(InstallEvent::Done), InstallAction::Check));
}

#[test]
fn a_runtime_that_cannot_be_used_does_not_stay() {
    let mut run = InstallRun { phase: InstallPhase::Validating };
    assert!(matches!(run.step(checked(false, true)), InstallAction::RemoveRuntime));
    assert!(matches!(
        run.step(failed("ignored")),
        InstallAction::Fail(reason)
            if reason == "embedded Python 3.12 failed its post-install validation"
    ));
}

#[test]
fn an_installation_ends_where_nothing_can_be_made_or_removed() {
    let mut run = InstallRun { phase: InstallPhase::Removing };
    assert!(
        matches!(run.step(failed("denied")), InstallAction::Fail(reason) if reason == "denied")
    );
    let mut run = InstallRun { phase: InstallPhase::Creating };
    assert!(
        matches!(run.step(failed("denied")), InstallAction::Fail(reason) if reason == "denied")
    );
}
