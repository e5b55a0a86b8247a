//! Diagnostic uploads.

use me::diag::abbreviated;
use me::diag::body_value;
use me::diag::check_archive_size;
use me::diag::describe_failure;
use me::diag::diagnostic_archive_name;
use me::diag::format_archive_name;
use me::diag::github_headers;
use me::diag::login_failure;
use me::diag::missing_directory_message;
use me::diag::name_archive;
use me::diag::name_archive_with;
use me::diag::read_token;
use me::diag::temporary_archive_name;
use me::diag::timestamp_with;
use me::diag::upload::UploadAction;
use me::diag::upload::UploadEvent;
use me::diag::upload::UploadPhase;
use me::diag::upload::UploadRun;
use me::diag::upload_body;
use me::diag::upload_outcome;
use me::diag::upload_url;
use me::diag::DiagnosticUpload;
use me::diag::DIAG_REPOSITORY;
use me::diag::LAST_SECOND;
use me::diag::MAX_GITHUB_FILE_BYTES;
use me::diag::UNKNOWN_DATE;

#[test]
fn archive_name_has_timestamp_unique_code_and_extension() {
    assert_eq!(
        format_archive_name("20260728-191501", "1a2b3c4"),
        "me-diag-upload-20260728-191501-1a2b3c4.tar.zst"
    );
}

#[test]
fn new_archives_are_named_after_the_time() {
    let name = diagnostic_archive_name().unwrap();
    assert!(name.starts_with("me-diag-upload-20"));
    assert!(name.ends_with(".tar.zst"));
    assert_eq!(name.len(), "me-diag-upload-20260728-191501-1a2b3c4.tar.zst".len());
    assert_eq!(
        temporary_archive_name(42, "a.tar.zst"),
        ".me-diag-42-a.tar.zst"
    );
}

#[test]
fn missing_workspaces_are_named() {
    assert_eq!(
        missing_directory_message("/w/.me"),
        "workspace diagnostic directory /w/.me does not exist"
    );
}

#[test]
fn archives_have_a_limit() {
    assert!(check_archive_size(MAX_GITHUB_FILE_BYTES).is_ok());
    assert_eq!(
        check_archive_size(MAX_GITHUB_FILE_BYTES + 1).unwrap_err(),
        "diagnostic archive is 104857601 bytes; GitHub repository files are limited to 104857600 bytes"
    );
}

#[test]
fn tokens_are_read_without_white_space() {
    assert_eq!(read_token(" token\n").unwrap(), "token");
    assert_eq!(
        read_token("\n").unwrap_err(),
        "GitHub CLI returned an empty authentication token"
    );
    assert_eq!(
        login_failure(" no login \n"),
        "GitHub CLI is not logged in with access to LytsingStudio/me-rust-diag-collects: no login"
    );
}

#[test]
fn github_request_uploads_the_exact_archive_bytes() {
    let archive = b"opaque diagnostic archive\0with binary";
    assert_eq!(
        upload_url("http://host//", DIAG_REPOSITORY, "me-diag-upload-test.tar.zst"),
        "http://host/repos/LytsingStudio/me-rust-diag-collects/contents/me-diag-upload-test.tar.zst"
    );
    let body = upload_body("me-diag-upload-test.tar.zst", archive);
    assert_eq!(
        body["content"].as_str().unwrap(),
        "b3BhcXVlIGRpYWdub3N0aWMgYXJjaGl2ZQB3aXRoIGJpbmFyeQ=="
    );
    assert_eq!(
        body["message"].as_str().unwrap(),
        "upload diagnostic archive me-diag-upload-test.tar.zst"
    );
    assert_eq!(
        body_value("n", "c").to_string(),
        r#"{"content":"c","message":"upload diagnostic archive n"}"#
    );
    let headers = github_headers("test-token");
    assert_eq!(headers[0], ("authorization".to_owned(), "Bearer test-token".to_owned()));
    assert_eq!(headers[2], ("x-github-api-version".to_owned(), "2022-11-28".to_owned()));
    assert_eq!(headers.len(), 4);
}

#[test]
fn created_archives_have_an_address() {
    let response = r#"{"content":{"html_url":"https://github.example/diagnostic/archive"}}"#;
    assert_eq!(
        upload_outcome(201, "201 Created", response).unwrap(),
        "https://github.example/diagnostic/archive"
    );
    assert_eq!(
        upload_outcome(201, "201 Created", "{}").unwrap_err(),
        "GitHub diagnostic upload response has no content URL"
    );
    assert!(upload_outcome(201, "201 Created", "nonsense").is_err());
}

#[test]
fn refusals_report_the_status_and_the_message() {
    assert_eq!(
        upload_outcome(403, "403 Forbidden", r#"{"message":"repository access denied"}"#)
            .unwrap_err(),
        "GitHub diagnostic upload failed with HTTP 403 Forbidden: repository access denied"
    );
    let long = "x".repeat(600);
    assert_eq!(
        upload_outcome(500, "500", &long).unwrap_err(),
        format!("GitHub diagnostic upload failed with HTTP 500: {}…", "x".repeat(500))
    );
    assert_eq!(
        upload_outcome(200, "200 OK", "[]").unwrap_err(),
        "GitHub diagnostic upload failed with HTTP 200 OK: []"
    );
    assert_eq!(describe_failure(None, "short"), "short");
}

#[test]
fn texts_are_abbreviated_by_characters() {
    assert_eq!(abbreviated("äöü", 3), "äöü");
    assert_eq!(abbreviated("äöü", 2), "äö…");
    assert_eq!(abbreviated("", 0), "");
    let upload = DiagnosticUpload {
        archive_name: "a".into(),
        archive_bytes: 1,
        url: "u".into(),
    };
    assert_eq!(upload.clone(), upload);
}

#[test]
fn archives_are_named_by_the_time_and_seven_digits() {
    assert_eq!(
        name_archive("20260728-191501", &[0x1a, 0x2b, 0x3c, 0x4d]),
        "me-diag-upload-20260728-191501-1a2b3c4.tar.zst"
    );
}

#[test]
fn missing_workspace_fails_before_authentication() {
    let mut run = UploadRun::start();
    let action = run.step(UploadEvent::Looked("/workspace/.me".to_owned(), false));
    let error = match action {
        UploadAction::Fail(reason) => reason,
        other => panic!("unexpected {other:?}"),
    };
    assert!(error.contains(".me"));
    assert!(error.contains("does not exist"));
    assert!(matches!(run.phase, UploadPhase::Ended));
}

#[test]
fn an_upload_goes_from_the_workspace_to_the_address() {
    let mut run = UploadRun::start();
    assert!(matches!(
        run.step(UploadEvent::Looked("/w/.me".to_owned(), true)),
        UploadAction::Name
    ));
    assert!(matches!(
        run.step(UploadEvent::Named("a.tar.zst".to_owned())),
        UploadAction::Archive(name) if name == "a.tar.zst"
    ));
    assert!(matches!(run.step(UploadEvent::Archived(12)), UploadAction::Authenticate));
    assert!(matches!(
        run.step(UploadEvent::Asked {
            success: true,
            stdout: "token\n".to_owned(),
            stderr: String::new(),
        }),
        UploadAction::Send(name, token) if name == "a.tar.zst" && token == "token"
    ));
    let action = run.step(UploadEvent::Answered {
        status: 201,
        status_text: "201 Created".to_owned(),
        body: "{\"content\":{\"html_url\":\"https://e/a\"}}".to_owned(),
    });
    assert!(matches!(
        action,
        UploadAction::Finish(upload) if upload == DiagnosticUpload {
            archive_name: "a.tar.zst".to_owned(),
            archive_bytes: 12,
            url: "https://e/a".to_owned(),
        }
    ));
}

#[test]
fn github_failure_reports_status_without_exposing_token() {
    let mut run = UploadRun {
        phase: UploadPhase::Authenticating("me-diag-upload-test.tar.zst".to_owned(), 7),
    };
    assert!(matches!(
        run.step(UploadEvent::Asked {
            success: true,
            stdout: "must-not-appear".to_owned(),
            stderr: String::new(),
        }),
        UploadAction::Send(_, token) if token == "must-not-appear"
    ));
    let action = run.step(UploadEvent::Answered {
        status: 403,
        status_text: "403 Forbidden".to_owned(),
        body: r#"{"message":"repository access denied"}"#.to_owned(),
    });
    let error = match action {
        UploadAction::Fail(reason) => reason,
        other => panic!("unexpected {other:?}"),
    };
    assert!(error.contains("403"));
    assert!(error.contains("repository access denied"));
    assert!(!error.contains("must-not-appear"));
}

#[test]
fn bytes_are_sent_in_base64() {
    let content = |bytes: &[u8]| {
        upload_body("n", bytes)["content"].as_str().unwrap().to_owned()
    };
    assert_eq!(content(b""), "");
    assert_eq!(content(b"f"), "Zg==");
    assert_eq!(content(b"fo"), "Zm8=");
    assert_eq!(content(b"foo"), "Zm9v");
    assert_eq!(content(&[0xff, 0xef, 0xbe, 0xfb]), "/++++w==");
}

#[test]
fn an_upload_ends_where_a_step_does() {
    let mut run = UploadRun { phase: UploadPhase::Archiving("a".to_owned()) };
    assert!(matches!(
        run.step(UploadEvent::Archived(MAX_GITHUB_FILE_BYTES + 1)),
        UploadAction::Fail(reason) if reason.starts_with("diagnostic archive is 104857601 bytes")
    ));
    let mut run = UploadRun { phase: UploadPhase::Authenticating("a".to_owned(), 1) };
    assert!(matches!(
        run.step(UploadEvent::Asked {
            success: false,
            stdout: "token".to_owned(),
            stderr: " no account \n".to_owned(),
        }),
        UploadAction::Fail(reason)
            if reason == format!("GitHub CLI is not logged in with access to {DIAG_REPOSITORY}: no account")
    ));
    let mut run = UploadRun { phase: UploadPhase::Authenticating("a".to_owned(), 1) };
    assert!(matches!(
        run.step(UploadEvent::Asked {
            success: true,
            stdout: " \n".to_owned(),
            stderr: String::new(),
        }),
        UploadAction::Fail(reason) if reason == "GitHub CLI returned an empty authentication token"
    ));
    let mut run = UploadRun { phase: UploadPhase::Sending("a".to_owned(), 1) };
    assert!(matches!(
        run.step(UploadEvent::Answered {
            status: 422,
            status_text: "422 Unprocessable Entity".to_owned(),
            body: "{\"message\":\"no\"}".to_owned(),
        }),
        UploadAction::Fail(reason)
            if reason == "GitHub diagnostic upload failed with HTTP 422 Unprocessable Entity: no"
    ));
    let mut run = UploadRun { phase: UploadPhase::Naming };
    assert!(matches!(
        run.step(UploadEvent::Failed("no bytes".to_owned())),
        UploadAction::Fail(reason) if reason == "no bytes"
    ));
}

#[test]
fn archives_without_random_bytes_or_a_time_have_no_name() {
    let bytes = vec![0x1a, 0x2b, 0x3c, 0x4d];
    let time = "20260728-191501".to_owned();
    assert_eq!(
        name_archive_with(Ok(bytes.clone()), Ok(time.clone())).unwrap(),
        "me-diag-upload-20260728-191501-1a2b3c4.tar.zst"
    );
    assert_eq!(
        name_archive_with(Err("no bytes".to_owned()), Ok(time)).unwrap_err(),
        "no bytes"
    );
    assert_eq!(
        name_archive_with(Ok(bytes), Err("no time".to_owned())).unwrap_err(),
        "no time"
    );
    assert_eq!(
        name_archive_with(Err("no bytes".to_owned()), Err("no time".to_owned())).unwrap_err(),
        "no bytes"
    );
}

#[test]
fn times_are_written_by_their_digits() {
    let time = timestamp_with(Ok(1_785_266_101)).unwrap();
    assert_eq!(time.len(), 15);
    assert!(time.starts_with("202607"));
    assert_eq!(&time[8..9], "-");
    assert!(time.chars().all(|c| c == '-' || c.is_ascii_digit()));
    assert_ne!(time, timestamp_with(Ok(1_785_266_102)).unwrap());
}

#[test]
fn clocks_out_of_range_tell_no_time() {
    assert_eq!(
        timestamp_with(Err("the clock stands before 1970".to_owned())).unwrap_err(),
        "the clock stands before 1970"
    );
    assert!(timestamp_with(Ok(0)).is_ok());
    assert!(timestamp_with(Ok(LAST_SECOND)).is_ok());
    assert_eq!(timestamp_with(Ok(LAST_SECOND + 1)).unwrap_err(), UNKNOWN_DATE);
    assert_eq!(timestamp_with(Ok(u64::MAX)).unwrap_err(), UNKNOWN_DATE);
}
