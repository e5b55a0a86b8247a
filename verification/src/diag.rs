//! Diagnostic uploads: how an archive is named and sent, and what the answer comes to.

use std::time::SystemTime;

use base64::engine::general_purpose::STANDARD;
use base64::Engine;
use chrono::Local;
use chrono::TimeZone;
use serde_json::Value;
use vstd::prelude::*;

pub mod course;
pub mod upload;

use crate::json::entries_view;
use crate::json::error_message;
use crate::json::get_member;
use crate::json::json_content;
use crate::json::json_fault;
use crate::json::member_of;
use crate::json::member_text;
use crate::json::members_of;
use crate::json::object_value;
use crate::json::parse_json;
use crate::json::parsed_json;
use crate::json::text_of_json;
use crate::json::text_value;
use crate::json::Json;
use crate::parts::hex_of;
use crate::parts::hex_text;
use crate::parts::is_digit;
use crate::parts::lemma_hex_length;
use crate::random::random_bytes;
use crate::text::chars_of;
use crate::text::decimal;
use crate::text::decimal_text;
use crate::text::text_range;
use crate::text::trim_text;
use crate::text::trimmed;

verus! {

/// Where diagnostic archives are collected.
pub const DIAG_REPOSITORY: &'static str = "LytsingStudio/me-rust-diag-collects";

/// The interface that archives are sent to.
pub const GITHUB_API_URL: &'static str = "https://api.github.com";

/// The version of the interface that is asked for.
pub const GITHUB_API_VERSION: &'static str = "2022-11-28";

/// What this program calls itself when it sends an archive.
pub const DIAG_USER_AGENT: &'static str = "me/0.0.267";

/// The bytes that a file of a repository may have.
pub const MAX_GITHUB_FILE_BYTES: u64 = 104857600;

/// An archive that has been sent.
#[derive(Clone, Debug, PartialEq, Eq)]
pub struct DiagnosticUpload {
    pub archive_name: String,
    pub archive_bytes: u64,
    pub url: String,
}

/// The name of an archive.
pub open spec fn archive_name(timestamp: Seq<char>, unique: Seq<char>) -> Seq<char> {
    "me-diag-upload-"@ + timestamp + "-"@ + unique + ".tar.zst"@
}

/// The name of an archive.
pub fn format_archive_name(timestamp: &str, unique: &str) -> (r: String)
    ensures
        r@ == archive_name(timestamp@, unique@),
{
    let mut name = "me-diag-upload-".to_owned();
    name.append(timestamp);
    name.append("-");
    name.append(unique);
    name.append(".tar.zst");
    name
}

/// Whether `text` ends with a date of eight digits, a hyphen and a time of six digits. Only a
/// year of more than four digits, or one with a sign, has more in front of them.
pub open spec fn is_timestamp(text: Seq<char>) -> bool {
    let start = text.len() - 15;
    &&& start >= 0
    &&& text[start + 8] == '-'
    &&& forall|i: int| start <= i < text.len() && i != start + 8 ==> is_digit(#[trigger] text[i])
}

/// A point in time.
#[verifier::external_type_specification]
#[verifier::external_body]
pub struct ExSystemTime(SystemTime);

/// The whole seconds from the beginning of 1970 to `time`, where it is not earlier.
pub uninterp spec fn epoch_seconds(time: SystemTime) -> Option<u64>;

/// `SystemTime::now`: the time by the clock. Nothing is stated of what it is.
#[verifier::external_body]
fn current_time() -> (r: SystemTime) {
    SystemTime::now()
}

/// `SystemTime::duration_since` with the beginning of 1970: the whole seconds from there to `time`,
/// or why there are none, where `time` is earlier.
#[verifier::external_body]
fn seconds_since_epoch(time: SystemTime) -> (r: Result<u64, String>)
    ensures
        match r {
            Ok(seconds) => epoch_seconds(time) == Some(seconds),
            Err(_) => epoch_seconds(time) is None,
        },
{
    match time.duration_since(SystemTime::UNIX_EPOCH) {
        Ok(duration) => Ok(duration.as_secs()),
        Err(error) => Err(error.to_string()),
    }
}

/// The last second of the year 262142, counted from the beginning of 1970: no later date is known.
pub const LAST_SECOND: u64 = 8210266876799;

/// `Local.timestamp_opt` in the format `%Y%m%d-%H%M%S`: the local date and time `seconds` after the
/// beginning of 1970, where there is a date for it. Which one it is depends on the time zone. The
/// system's description of the zone is taken to be sound: its times are less than a day from those
/// in UTC.
#[verifier::external_body]
fn local_timestamp(seconds: i64) -> (r: Option<String>)
    requires
        0 <= seconds,
    ensures
        r is Some == (seconds <= LAST_SECOND),
        r matches Some(text) ==> is_timestamp(text@),
{
    let time = Local.timestamp_opt(seconds, 0).single()?;
    Some(time.format("%Y%m%d-%H%M%S").to_string())
}

/// What is said where the clock shows a time that no date stands for.
pub const UNKNOWN_DATE: &'static str = "the system clock is out of range";

/// The local date and time, given how many seconds have passed since the beginning of 1970, or why
/// there is none.
pub fn timestamp_with(seconds: Result<u64, String>) -> (r: Result<String, String>)
    ensures
        match seconds {
            Ok(count) => match r {
                Ok(text) => count <= LAST_SECOND && is_timestamp(text@),
                Err(reason) => count > LAST_SECOND && reason@ == UNKNOWN_DATE@,
            },
            Err(reason) => r == Err::<String, String>(reason),
        },
{
    let count = match seconds {
        Ok(count) => count,
        Err(reason) => return Err(reason),
    };
    if count > i64::MAX as u64 {
        return Err(UNKNOWN_DATE.to_owned());
    }
    match local_timestamp(count as i64) {
        Some(text) => Ok(text),
        None => Err(UNKNOWN_DATE.to_owned()),
    }
}

/// Whether `name` is that of an archive with some time and seven hexadecimal digits in it.
pub open spec fn is_archive_name(name: Seq<char>) -> bool {
    exists|timestamp: Seq<char>, bytes: Seq<u8>|
        is_timestamp(timestamp) && bytes.len() == 4 && name == #[trigger] archive_name(
            timestamp,
            hex_of(bytes).take(7),
        )
}

/// The name of an archive that was put together at `timestamp`, with the first seven of the
/// hexadecimal digits of four random bytes.
pub fn name_archive(timestamp: &str, random: &[u8]) -> (r: String)
    requires
        random@.len() == 4,
    ensures
        r@ == archive_name(timestamp@, hex_of(random@).take(7)),
{
    let chars = chars_of(&hex_text(random));
    proof {
        lemma_hex_length(random@);
    }
    let unique = text_range(&chars, 0, 7);
    assert(unique@ =~= hex_of(random@).take(7));
    format_archive_name(timestamp, &unique)
}

/// The name of an archive, given what asking for four random bytes and asking for the time have
/// come to: without the one or the other there is none, for the same reason. The bytes come first.
pub fn name_archive_with(
    random: Result<Vec<u8>, String>,
    timestamp: Result<String, String>,
) -> (r: Result<String, String>)
    requires
        random matches Ok(bytes) ==> bytes@.len() == 4,
    ensures
        match (random, timestamp) {
            (Ok(bytes), Ok(text)) => r matches Ok(name) && name@ == archive_name(
                text@,
                hex_of(bytes@).take(7),
            ),
            (Ok(_), Err(reason)) => r == Err::<String, String>(reason),
            (Err(reason), _) => r == Err::<String, String>(reason),
        },
{
    match (random, timestamp) {
        (Ok(bytes), Ok(text)) => Ok(name_archive(&text, &bytes)),
        (Ok(_), Err(reason)) => Err(reason),
        (Err(reason), _) => Err(reason),
    }
}

/// A name for a new archive, or why there is none. Whatever the time and the random digits are,
/// the name is made of them.
pub fn diagnostic_archive_name() -> (r: Result<String, String>)
    ensures
        r matches Ok(name) ==> is_archive_name(name@),
{
    let random = random_bytes(4);
    name_archive_with(random, timestamp_with(seconds_since_epoch(current_time())))
}

/// What is said where there is nothing to send.
pub open spec fn missing_directory_text(directory: Seq<char>) -> Seq<char> {
    "workspace diagnostic directory "@ + directory + " does not exist"@
}

/// What is said where there is nothing to send.
pub fn missing_directory_message(directory: &str) -> (r: String)
    ensures
        r@ == missing_directory_text(directory@),
{
    let mut message = "workspace diagnostic directory ".to_owned();
    message.append(directory);
    message.append(" does not exist");
    message
}

/// The name under which an archive is put together.
pub fn temporary_archive_name(process_id: u32, archive_name: &str) -> (r: String)
    ensures
        r@ == ".me-diag-"@ + decimal(process_id as nat) + "-"@ + archive_name@,
{
    let mut name = ".me-diag-".to_owned();
    name.append(&decimal_text(process_id as u64));
    name.append("-");
    name.append(archive_name);
    name
}

/// What is said of an archive of `bytes` bytes that is too large.
pub open spec fn oversize_text(bytes: u64) -> Seq<char> {
    "diagnostic archive is "@ + decimal(bytes as nat)
        + " bytes; GitHub repository files are limited to "@ + decimal(MAX_GITHUB_FILE_BYTES as nat)
        + " bytes"@
}

/// Whether an archive is small enough to be sent.
pub fn check_archive_size(archive_bytes: u64) -> (r: Result<(), String>)
    ensures
        match r {
            Ok(_) => archive_bytes <= MAX_GITHUB_FILE_BYTES,
            Err(message) => archive_bytes > MAX_GITHUB_FILE_BYTES && message@ == oversize_text(
                archive_bytes,
            ),
        },
{
    if archive_bytes <= MAX_GITHUB_FILE_BYTES {
        return Ok(());
    }
    let mut message = "diagnostic archive is ".to_owned();
    message.append(&decimal_text(archive_bytes));
    message.append(" bytes; GitHub repository files are limited to ");
    message.append(&decimal_text(MAX_GITHUB_FILE_BYTES));
    message.append(" bytes");
    Err(message)
}

/// What is said where nobody is logged in.
pub open spec fn login_text(stderr: Seq<char>) -> Seq<char> {
    "GitHub CLI is not logged in with access to "@ + DIAG_REPOSITORY@ + ": "@ + trimmed(stderr)
}

/// What is said where nobody is logged in.
pub fn login_failure(stderr: &str) -> (r: String)
    ensures
        r@ == login_text(stderr@),
{
    let mut message = "GitHub CLI is not logged in with access to ".to_owned();
    message.append(DIAG_REPOSITORY);
    message.append(": ");
    message.append(&trim_text(stderr));
    message
}

/// What is said where there is no token.
pub const EMPTY_TOKEN: &'static str = "GitHub CLI returned an empty authentication token";

/// The token among what the command printed.
pub fn read_token(stdout: &str) -> (r: Result<String, String>)
    ensures
        match r {
            Ok(token) => token@ == trimmed(stdout@) && token@.len() > 0,
            Err(message) => trimmed(stdout@).len() == 0 && message@ == EMPTY_TOKEN@,
        },
{
    let token = trim_text(stdout);
    if token.as_str().is_empty() {
        Err(EMPTY_TOKEN.to_owned())
    } else {
        Ok(token)
    }
}

/// `s` without the slashes at its end.
pub open spec fn slashes_dropped(s: Seq<char>) -> Seq<char>
    decreases s.len(),
{
    if s.len() > 0 && s.last() == '/' {
        slashes_dropped(s.drop_last())
    } else {
        s
    }
}

/// Where an archive is sent.
pub fn upload_url(api_url: &str, repository: &str, archive_name: &str) -> (r: String)
    ensures
        r@ == slashes_dropped(api_url@) + "/repos/"@ + repository@ + "/contents/"@ + archive_name@,
{
    let chars = chars_of(api_url);
    let mut end = chars.len();
    assert(chars@.take(end as int) =~= chars@);
    while end > 0 && chars[end - 1] == '/'
        invariant
            end <= chars@.len(),
            slashes_dropped(chars@.take(end as int)) == slashes_dropped(chars@),
        decreases end,
    {
        assert(chars@.take(end as int).last() == chars@[end - 1]);
        assert(chars@.take(end as int).drop_last() =~= chars@.take(end - 1));
        end = end - 1;
    }
    let ghost kept = chars@.take(end as int);
    assert(slashes_dropped(kept) == kept) by {
        if end > 0 {
            assert(kept.last() == chars@[end - 1]);
        }
    }
    let mut url = text_range(&chars, 0, end);
    assert(url@ =~= kept);
    url.append("/repos/");
    url.append(repository);
    url.append("/contents/");
    url.append(archive_name);
    url
}

/// The headers of a request: who asks, for what, and by which version of the interface.
pub fn github_headers(token: &str) -> (r: Vec<(String, String)>)
    ensures
        r@.len() == 4,
        r@[0].0@ == "authorization"@ && r@[0].1@ == "Bearer "@ + token@,
        r@[1].0@ == "accept"@ && r@[1].1@ == "application/vnd.github+json"@,
        r@[2].0@ == "x-github-api-version"@ && r@[2].1@ == GITHUB_API_VERSION@,
        r@[3].0@ == "user-agent"@ && r@[3].1@ == DIAG_USER_AGENT@,
{
    let mut bearer = "Bearer ".to_owned();
    bearer.append(token);
    let mut headers: Vec<(String, String)> = Vec::new();
    headers.push(("authorization".to_owned(), bearer));
    headers.push(("accept".to_owned(), "application/vnd.github+json".to_owned()));
    headers.push(("x-github-api-version".to_owned(), GITHUB_API_VERSION.to_owned()));
    headers.push(("user-agent".to_owned(), DIAG_USER_AGENT.to_owned()));
    headers
}

/// The character that stands for six bits in Base64: letters, digits, a plus sign and a slash.
pub open spec fn base64_digit(value: int) -> char {
    if value < 26 {
        ('A' as int + value) as char
    } else if value < 52 {
        ('a' as int + value - 26) as char
    } else if value < 62 {
        ('0' as int + value - 52) as char
    } else if value == 62 {
        '+'
    } else {
        '/'
    }
}

/// `bytes` in Base64: four characters for any three bytes, filled up with equals signs at the end.
pub open spec fn base64_of(bytes: Seq<u8>) -> Seq<char>
    decreases bytes.len(),
{
    if bytes.len() == 0 {
        Seq::empty()
    } else if bytes.len() == 1 {
        let a = bytes[0] as int;
        seq![base64_digit(a / 4), base64_digit(a % 4 * 16), '=', '=']
    } else if bytes.len() == 2 {
        let (a, b) = (bytes[0] as int, bytes[1] as int);
        seq![
            base64_digit(a / 4),
            base64_digit(a % 4 * 16 + b / 16),
            base64_digit(b % 16 * 4),
            '=',
        ]
    } else {
        let (a, b, c) = (bytes[0] as int, bytes[1] as int, bytes[2] as int);
        seq![
            base64_digit(a / 4),
            base64_digit(a % 4 * 16 + b / 16),
            base64_digit(b % 16 * 4 + c / 64),
            base64_digit(c % 64),
        ] + base64_of(bytes.skip(3))
    }
}

/// The six bits that `c` stands for in Base64.
pub open spec fn digit_value(c: char) -> int {
    if 'A' <= c <= 'Z' {
        c as int - 'A' as int
    } else if 'a' <= c <= 'z' {
        c as int - 'a' as int + 26
    } else if '0' <= c <= '9' {
        c as int - '0' as int + 52
    } else if c == '+' {
        62
    } else {
        63
    }
}

/// The bytes that `text` stands for in Base64.
pub open spec fn base64_bytes(text: Seq<char>) -> Seq<u8>
    decreases text.len(),
{
    if text.len() < 4 {
        Seq::empty()
    } else {
        let (a, b) = (digit_value(text[0]), digit_value(text[1]));
        let (c, d) = (digit_value(text[2]), digit_value(text[3]));
        let first = (a * 4 + b / 16) as u8;
        let second = (b % 16 * 16 + c / 4) as u8;
        let third = (c % 4 * 64 + d) as u8;
        if text[2] == '=' {
            seq![first]
        } else if text[3] == '=' {
            seq![first, second]
        } else {
            seq![first, second, third] + base64_bytes(text.skip(4))
        }
    }
}

proof fn lemma_digit(value: int)
    requires
        0 <= value < 64,
    ensures
        digit_value(base64_digit(value)) == value,
        base64_digit(value) != '=',
{
}

proof fn lemma_base64(bytes: Seq<u8>)
    ensures
        base64_bytes(base64_of(bytes)) == bytes,
    decreases bytes.len(),
{
    let text = base64_of(bytes);
    if bytes.len() > 0 {
        let a = bytes[0] as int;
        lemma_digit(a / 4);
        if bytes.len() == 1 {
            lemma_digit(a % 4 * 16);
        } else {
            let b = bytes[1] as int;
            lemma_digit(a % 4 * 16 + b / 16);
            if bytes.len() == 2 {
                lemma_digit(b % 16 * 4);
            } else {
                let c = bytes[2] as int;
                lemma_digit(b % 16 * 4 + c / 64);
                lemma_digit(c % 64);
                lemma_base64(bytes.skip(3));
                assert(text.skip(4) =~= base64_of(bytes.skip(3)));
            }
        }
    }
    assert(base64_bytes(text) =~= bytes);
}

/// `Engine::encode` of the standard engine: the bytes in Base64, with the standard alphabet and
/// padding.
#[verifier::external_body]
fn encode_base64(bytes: &[u8]) -> (r: String)
    ensures
        r@ == base64_of(bytes@),
{
    STANDARD.encode(bytes)
}

/// What is sent of an archive.
pub open spec fn body_json(archive_name: Seq<char>, content: Seq<char>) -> Json {
    Json::Object(
        members_of(
            seq![
                ("message"@, Json::Text("upload diagnostic archive "@ + archive_name)),
                ("content"@, Json::Text(content)),
            ],
        ),
    )
}

/// What is sent of an archive whose content is in Base64.
pub fn body_value(archive_name: &str, content: &str) -> (r: Value)
    ensures
        json_content(r) == body_json(archive_name@, content@),
{
    let mut message = "upload diagnostic archive ".to_owned();
    message.append(archive_name);
    let mut entries: Vec<(String, Value)> = Vec::new();
    entries.push(("message".to_owned(), text_value(&message)));
    entries.push(("content".to_owned(), text_value(content)));
    assert(entries_view(entries@) =~= seq![
        ("message"@, Json::Text("upload diagnostic archive "@ + archive_name@)),
        ("content"@, Json::Text(content@)),
    ]);
    object_value(entries)
}

/// What is sent of an archive.
pub fn upload_body(archive_name: &str, archive: &[u8]) -> (r: Value)
    ensures
        json_content(r) == body_json(archive_name@, base64_of(archive@)),
{
    body_value(archive_name, &encode_base64(archive))
}

/// The exact bytes of an archive can be read back from what is sent of it.
pub proof fn law_archives_are_sent_unchanged(archive_name: Seq<char>, archive: Seq<u8>)
    ensures
        text_of_json(
            member_of(body_json(archive_name, base64_of(archive)), "content"@),
        ) matches Some(content) && base64_bytes(content) == archive,
{
    lemma_base64(archive);
    let content = base64_of(archive);
    let entries = seq![
        ("message"@, Json::Text("upload diagnostic archive "@ + archive_name)),
        ("content"@, Json::Text(content)),
    ];
    assert(entries.last() == ("content"@, Json::Text(content)));
    assert(members_of(entries).contains_key("content"@));
}

/// At most the first `limit` characters of `value`, with an ellipsis where there are more.
pub open spec fn shortened(value: Seq<char>, limit: int) -> Seq<char> {
    if value.len() > limit {
        value.take(limit) + "…"@
    } else {
        value
    }
}

/// At most the first `limit` characters, with an ellipsis where there are more.
pub fn abbreviated(value: &str, limit: usize) -> (r: String)
    ensures
        r@ == shortened(value@, limit as int),
{
    let chars = chars_of(value);
    if chars.len() <= limit {
        return value.to_owned();
    }
    let mut text = text_range(&chars, 0, limit);
    assert(text@ =~= value@.take(limit as int));
    text.append("…");
    text
}

/// What an answer says about why nothing was created: its message, or as much of it as there is
/// room for.
pub open spec fn failure_detail(parsed: Option<Json>, body: Seq<char>) -> Seq<char> {
    match parsed {
        Some(json) => match text_of_json(member_of(json, "message"@)) {
            Some(message) => message,
            None => shortened(body, 500),
        },
        None => shortened(body, 500),
    }
}

/// The address that an answer gives for what was created.
pub open spec fn content_url(json: Json) -> Option<Seq<char>> {
    match member_of(json, "content"@) {
        Some(content) => text_of_json(member_of(content, "html_url"@)),
        None => None,
    }
}

/// What the answer to an upload comes to, where `parsed` is its body as JSON: the address of the
/// archive, or what is said where there is none. Only the status 201 stands for success.
pub open spec fn outcome_of(
    status: u16,
    status_text: Seq<char>,
    parsed: Option<Json>,
    fault: Seq<char>,
    body: Seq<char>,
) -> Result<Seq<char>, Seq<char>> {
    if status != 201 {
        Err(
            "GitHub diagnostic upload failed with HTTP "@ + status_text + ": "@ + failure_detail(
                parsed,
                body,
            ),
        )
    } else {
        match parsed {
            None => Err(fault),
            Some(json) => match content_url(json) {
                Some(url) => Ok(url),
                None => Err("GitHub diagnostic upload response has no content URL"@),
            },
        }
    }
}

/// What an answer says about why nothing was created.
pub fn describe_failure(parsed: Option<&Value>, body: &str) -> (r: String)
    ensures
        r@ == failure_detail(
            match parsed {
                Some(value) => Some(json_content(*value)),
                None => None,
            },
            body@,
        ),
{
    if let Some(value) = parsed {
        if let Some(message) = member_text(value, "message") {
            return message.to_owned();
        }
    }
    abbreviated(body, 500)
}

/// The address that an answer gives for what was created.
pub fn find_content_url(value: &Value) -> (r: Option<String>)
    ensures
        match r {
            Some(url) => content_url(json_content(*value)) == Some(url@),
            None => content_url(json_content(*value)) is None,
        },
{
    match get_member(value, "content") {
        Some(content) => match member_text(content, "html_url") {
            Some(url) => Some(url.to_owned()),
            None => None,
        },
        None => None,
    }
}

/// What the answer to an upload comes to.
pub fn upload_outcome(status: u16, status_text: &str, body: &str) -> (r: Result<String, String>)
    ensures
        match r {
            Ok(url) => outcome_of(
                status,
                status_text@,
                parsed_json(body@),
                json_fault(body@),
                body@,
            ) == Ok::<Seq<char>, Seq<char>>(url@),
            Err(message) => outcome_of(
                status,
                status_text@,
                parsed_json(body@),
                json_fault(body@),
                body@,
            ) == Err::<Seq<char>, Seq<char>>(message@),
        },
{
    let parsed = parse_json(body);
    if status != 201 {
        let detail = match &parsed {
            Ok(value) => describe_failure(Some(value), body),
            Err(_) => describe_failure(None, body),
        };
        let mut message = "GitHub diagnostic upload failed with HTTP ".to_owned();
        message.append(status_text);
        message.append(": ");
        message.append(&detail);
        return Err(message);
    }
    match parsed {
        Err(error) => Err(error_message(&error)),
        Ok(value) => match find_content_url(&value) {
            Some(url) => Ok(url),
            None => Err("GitHub diagnostic upload response has no content URL".to_owned()),
        },
    }
}

} // verus!
