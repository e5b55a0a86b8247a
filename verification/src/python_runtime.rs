//! The Python that comes along: which paths its archive may hold, and when it has to be installed.

use vstd::prelude::*;

pub mod course;
pub mod install;

use crate::text::decimal;
use crate::text::decimal_text;
use crate::text::same_text;
use crate::text::wide_decimal_text;

verus! {

/// The file that says which runtime is installed.
pub const MARKER_FILE: &'static str = ".me-python-runtime";

/// The lock that keeps installations apart.
pub const LOCK_FILE: &'static str = ".install.lock";

/// Where runtimes are kept, below the configuration.
pub const RUNTIME_DIRECTORY: &'static str = "runtime/python";

/// The program that tells whether an interpreter is the one that is wanted.
pub const VERSION_CHECK: &'static str = "import sys; raise SystemExit(0 if sys.version_info[:2] == (3, 12) else 1)";

/// A part of a path: a name, or anything else (a root, a prefix, a dot or two).
#[derive(Debug)]
pub enum PathPart {
    Normal(String),
    Special,
}

/// Whether the path of `parts` lies below the directory that the archive is made of, and goes
/// nowhere else.
pub open spec fn is_python_path(parts: Seq<PathPart>) -> bool {
    &&& parts.len() > 0
    &&& parts[0] matches PathPart::Normal(root) && root@ == "python"@
    &&& forall|i: int| 0 <= i < parts.len() ==> (#[trigger] parts[i]) is Normal
}

/// Whether a path of the archive is one that may be unpacked.
pub fn is_python_archive_path(parts: &Vec<PathPart>) -> (r: bool)
    ensures
        r == is_python_path(parts@),
{
    if parts.len() == 0 {
        return false;
    }
    if let PathPart::Normal(root) = &parts[0] {
        if !same_text(root, "python") {
            return false;
        }
    } else {
        return false;
    }
    for i in 0..parts.len()
        invariant
            parts@.len() > 0,
            parts@[0] matches PathPart::Normal(root) && root@ == "python"@,
            forall|j: int| 0 <= j < i ==> (#[trigger] parts@[j]) is Normal,
    {
        if let PathPart::Special = &parts[i] {
            assert(parts@[i as int] is Special);
            return false;
        }
    }
    true
}

/// What is said of a path that may not be unpacked.
pub fn invalid_path_message(path: &str) -> (r: String)
    ensures
        r@ == "embedded Python archive contains an invalid path: "@ + path@,
{
    let mut message = "embedded Python archive contains an invalid path: ".to_owned();
    message.append(path);
    message
}

/// What is said of a path that was not unpacked.
pub fn escaped_path_message(path: &str) -> (r: String)
    ensures
        r@ == "embedded Python archive entry escaped its install root: "@ + path@,
{
    let mut message = "embedded Python archive entry escaped its install root: ".to_owned();
    message.append(path);
    message
}

/// What the marker of a runtime holds.
pub open spec fn marker_content(runtime: Seq<char>, checksum: Seq<char>) -> Seq<char> {
    runtime + "\n"@ + checksum + "\n"@
}

/// What the marker of a runtime holds.
pub fn marker_text(runtime: &str, checksum: &str) -> (r: String)
    ensures
        r@ == marker_content(runtime@, checksum@),
{
    let mut text = runtime.to_owned();
    text.append("\n");
    text.append(checksum);
    text.append("\n");
    text
}

/// Whether the marker that was read, if any, is that of the runtime.
pub fn marker_is_valid(marker: Option<&str>, runtime: &str, checksum: &str) -> (r: bool)
    ensures
        r == (marker matches Some(text) && text@ == marker_content(runtime@, checksum@)),
{
    match marker {
        Some(text) => same_text(text, &marker_text(runtime, checksum)),
        None => false,
    }
}

/// Whether an installed runtime can be used: its marker, its interpreter, and what the
/// interpreter says of itself must all be right.
pub fn runtime_is_valid(marker: bool, interpreter: bool, version: bool) -> (r: bool)
    ensures
        r == (marker && interpreter && version),
{
    marker && interpreter && version
}

/// Where the interpreter is, below its runtime.
pub fn interpreter_path(windows: bool) -> (r: &'static str)
    ensures
        r@ == if windows {
            "python.exe"@
        } else {
            "bin/python3.12"@
        },
{
    if windows {
        "python.exe"
    } else {
        "bin/python3.12"
    }
}

/// The name of the directory in which a runtime is unpacked.
pub fn staging_name(process_id: u32, nonce: u128) -> (r: String)
    ensures
        r@ == ".install-"@ + decimal(process_id as nat) + "-"@ + decimal(nonce as nat),
{
    let mut name = ".install-".to_owned();
    name.append(&decimal_text(process_id as u64));
    name.append("-");
    name.append(&wide_decimal_text(nonce));
    name
}

/// What is said of an archive without an interpreter.
pub const MISSING_INTERPRETER: &'static str = "embedded Python archive has no target interpreter";

/// What is said of a runtime that cannot be used after all.
pub const INVALID_INSTALL: &'static str = "embedded Python 3.12 failed its post-install validation";

} // verus!
