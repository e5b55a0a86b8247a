//! The names of files, paths as they are written in a script, and what is told of an answer.

use vstd::prelude::*;

use crate::text::occurs_at;
use crate::text::trimmed;
use crate::updater::asset_for;
use crate::updater::detail_of;
use crate::updater::plain_path;

verus! {

/// There are files for two architectures of macOS and of Linux and for one of Windows. Each has the
/// name of the program, of the system and of the architecture, and an extension on Windows only.
pub proof fn law_files_are_named_for_their_system(os: Seq<char>, arch: Seq<char>)
    requires
        os == "macos"@ || os == "linux"@ || os == "windows"@,
        arch == "aarch64"@ || arch == "x86_64"@,
    ensures
        ({
            let short = if arch == "aarch64"@ {
                "arm64"@
            } else {
                "x86_64"@
            };
            let name = "me-"@ + os + "-"@ + short;
            asset_for(os, arch) == if os == "windows"@ {
                if arch == "x86_64"@ {
                    Some(name + ".exe"@)
                } else {
                    None
                }
            } else {
                Some(name)
            }
        }),
{
    reveal_strlit("macos");
    reveal_strlit("linux");
    reveal_strlit("windows");
    reveal_strlit("aarch64");
    reveal_strlit("arm64");
    reveal_strlit("x86_64");
    reveal_strlit("me-");
    reveal_strlit("-");
    reveal_strlit(".exe");
    reveal_strlit("me-macos-arm64");
    reveal_strlit("me-macos-x86_64");
    reveal_strlit("me-linux-arm64");
    reveal_strlit("me-linux-x86_64");
    reveal_strlit("me-windows-x86_64.exe");
    assert("macos"@[0] == 'm' && "linux"@[0] == 'l' && "windows"@[0] == 'w');
    assert("aarch64"@[0] == 'a' && "x86_64"@[0] == 'x');
    assert("me-"@ + "macos"@ + "-"@ + "arm64"@ =~= "me-macos-arm64"@);
    assert("me-"@ + "macos"@ + "-"@ + "x86_64"@ =~= "me-macos-x86_64"@);
    assert("me-"@ + "linux"@ + "-"@ + "arm64"@ =~= "me-linux-arm64"@);
    assert("me-"@ + "linux"@ + "-"@ + "x86_64"@ =~= "me-linux-x86_64"@);
    assert("me-"@ + "windows"@ + "-"@ + "x86_64"@ + ".exe"@ =~= "me-windows-x86_64.exe"@);
}

/// What Windows puts in front of a path to take it as it stands is left out, and a share of a network
/// begins with two backslashes again. All other paths stay as they are.
pub proof fn law_paths_are_written_plainly(path: Seq<char>)
    ensures
        plain_path("\\\\?\\UNC\\"@ + path) == "\\\\"@ + path,
        !occurs_at(path, "UNC\\"@, 0) ==> plain_path("\\\\?\\"@ + path) == path,
        !occurs_at(path, "\\\\?\\"@, 0) ==> plain_path(path) == path,
{
    reveal_strlit("\\\\?\\UNC\\");
    reveal_strlit("\\\\?\\");
    reveal_strlit("UNC\\");
    let mark = "\\\\?\\"@;
    let share = "\\\\?\\UNC\\"@;
    assert(share =~= mark + "UNC\\"@);
    let network = share + path;
    assert(network.subrange(0, share.len() as int) =~= share);
    assert(network.skip(share.len() as int) =~= path);
    let local = mark + path;
    assert(local.subrange(0, mark.len() as int) =~= mark);
    assert(local.skip(mark.len() as int) =~= path);
    if !occurs_at(path, "UNC\\"@, 0) && occurs_at(local, share, 0) {
        assert forall|i: int| 0 <= i < 4 implies path[i] == #[trigger] "UNC\\"@[i] by {
            assert(local.subrange(0, share.len() as int)[i + 4] == share[i + 4]);
        }
        assert(path.subrange(0, 4) =~= "UNC\\"@);
    }
    if !occurs_at(path, mark, 0) && occurs_at(path, share, 0) {
        assert forall|i: int| 0 <= i < 4 implies path[i] == #[trigger] mark[i] by {
            assert(path.subrange(0, share.len() as int)[i] == share[i]);
        }
        assert(path.subrange(0, 4) =~= mark);
    }
}

/// What the body of an answer says is told behind a colon, up to 512 characters of it, and nothing is
/// added where it says nothing.
pub proof fn law_answers_are_told_in_short(body: Seq<char>, text: Seq<char>, rest: Seq<char>)
    requires
        trimmed(body) == text + rest,
    ensures
        text.len() == 512 ==> detail_of(body) == ": "@ + text,
        0 < text.len() < 512 && rest.len() == 0 ==> detail_of(body) == ": "@ + text,
        text.len() == 0 && rest.len() == 0 ==> detail_of(body).len() == 0,
{
    if text.len() == 512 {
        assert((text + rest).take(512) =~= text);
        if rest.len() == 0 {
            assert(text + rest =~= text);
        }
    } else if rest.len() == 0 {
        assert(text + rest =~= text);
    }
}

} // verus!
