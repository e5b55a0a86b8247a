//! What releases, their files and their checksums promise together.

use vstd::prelude::*;

use crate::parts::fields_of;
use crate::parts::hex_of;
use crate::parts::is_digit;
use crate::parts::joined_with;
use crate::parts::lemma_hex_length;
use crate::parts::lines_of;
use crate::parts::words_of;
use crate::reading::is_solid;
use crate::reading::law_decimals_are_read_back;
use crate::reading::law_hex_digits_are_read_back;
use crate::reading::law_joined_fields_are_read_back;
use crate::reading::law_lower_case;
use crate::reading::law_words_stand_between_spaces;
use crate::text::decimal;
use crate::text::is_blank;
use crate::text::is_white_space;
use crate::text::lowered;
use crate::updater::asset_position;
use crate::updater::core_length;
use crate::updater::decision_of;
use crate::updater::digest_outcome;
use crate::updater::entry_checksum;
use crate::updater::is_before;
use crate::updater::is_checksum;
use crate::updater::is_entry_for;
use crate::updater::is_hex_digit;
use crate::updater::is_only_entry;
use crate::updater::law_one_entry_decides;
use crate::updater::manifest_entry;
use crate::updater::stars_skipped;
use crate::updater::unprefixed;
use crate::updater::version_of;
use crate::updater::GitHubReleaseAsset;
use crate::updater::ManifestFault;
use crate::updater::UpdateDecision;

verus! {

/// Three numbers with dots between them.
pub open spec fn dotted(major: u64, minor: u64, patch: u64) -> Seq<char> {
    decimal(major as nat) + "."@ + decimal(minor as nat) + "."@ + decimal(patch as nat)
}

/// The tag of a release with three numbers.
pub open spec fn tag_of(version: (u64, u64, u64)) -> Seq<char> {
    "v"@ + dotted(version.0, version.1, version.2)
}

/// The first number of a release outweighs the second, and the second the third.
pub proof fn law_numbers_order_releases(a: (u64, u64, u64), b: (u64, u64, u64))
    ensures
        a.0 < b.0 ==> is_before(a, b) && !is_before(b, a),
        a.0 == b.0 && a.1 < b.1 ==> is_before(a, b) && !is_before(b, a),
        a.0 == b.0 && a.1 == b.1 ==> (is_before(a, b) <==> a.2 < b.2),
{
}

proof fn lemma_core_length(core: Seq<char>, suffix: Seq<char>)
    requires
        forall|i: int| 0 <= i < core.len() ==> is_digit(#[trigger] core[i]) || core[i] == '.',
        suffix.len() == 0 || suffix[0] == '-' || suffix[0] == '+',
    ensures
        core_length(core + suffix) == core.len(),
    decreases core.len(),
{
    let whole = core + suffix;
    if core.len() > 0 {
        assert(whole[0] == core[0]);
        let rest = core.drop_first();
        assert forall|i: int| 0 <= i < rest.len() implies is_digit(#[trigger] rest[i]) || rest[i]
            == '.' by {
            assert(rest[i] == core[i + 1]);
        }
        lemma_core_length(rest, suffix);
        assert(whole.drop_first() =~= rest + suffix);
    } else if suffix.len() > 0 {
        assert(whole[0] == suffix[0]);
    }
}

proof fn lemma_dotted(major: u64, minor: u64, patch: u64)
    ensures
        dotted(major, minor, patch).len() > 0,
        is_digit(dotted(major, minor, patch)[0]),
        forall|i: int|
            0 <= i < dotted(major, minor, patch).len() ==> is_digit(
                #[trigger] dotted(major, minor, patch)[i],
            ) || dotted(major, minor, patch)[i] == '.',
        fields_of(dotted(major, minor, patch), '.') == seq![
            decimal(major as nat),
            decimal(minor as nat),
            decimal(patch as nat),
        ],
{
    reveal_strlit(".");
    law_decimals_are_read_back(major as nat);
    law_decimals_are_read_back(minor as nat);
    law_decimals_are_read_back(patch as nat);
    let a = decimal(major as nat);
    let b = decimal(minor as nat);
    let c = decimal(patch as nat);
    let parts = seq![a, b, c];
    let all = dotted(major, minor, patch);
    assert(all[0] == a[0]);
    assert forall|i: int| 0 <= i < all.len() implies is_digit(#[trigger] all[i]) || all[i]
        == '.' by {
        if i < a.len() {
            assert(all[i] == a[i]);
        } else if i > a.len() && i < a.len() + 1 + b.len() {
            assert(all[i] == b[i - a.len() - 1]);
        } else if i > a.len() + 1 + b.len() {
            assert(all[i] == c[i - a.len() - b.len() - 2]);
        }
    }
    assert forall|i: int| 0 <= i < parts.len() implies !(#[trigger] parts[i]).contains('.') by {
        if parts[i].contains('.') {
            let j = choose|j: int| 0 <= j < parts[i].len() && parts[i][j] == '.';
            assert(is_digit(parts[i][j]));
        }
    }
    law_joined_fields_are_read_back(parts, '.');
    reveal_with_fuel(joined_with, 3);
    assert(parts.drop_last() =~= seq![a, b]);
    assert(seq![a, b].drop_last() =~= seq![a]);
    assert(joined_with(parts, seq!['.']) =~= all);
}

/// A tag is read as the three numbers that stand in it, with or without the letter in front and
/// whatever follows a hyphen or a plus sign behind them.
pub proof fn law_tags_are_read(version: (u64, u64, u64), suffix: Seq<char>)
    requires
        suffix.len() == 0 || suffix[0] == '-' || suffix[0] == '+',
    ensures
        version_of(tag_of(version) + suffix) == Some(version),
        version_of(dotted(version.0, version.1, version.2) + suffix) == Some(version),
{
    reveal_strlit("v");
    let core = dotted(version.0, version.1, version.2);
    lemma_dotted(version.0, version.1, version.2);
    lemma_core_length(core, suffix);
    law_decimals_are_read_back(version.0 as nat);
    law_decimals_are_read_back(version.1 as nat);
    law_decimals_are_read_back(version.2 as nat);
    let tag = tag_of(version) + suffix;
    assert(tag[0] == 'v');
    assert(unprefixed(tag) =~= core + suffix);
    assert((core + suffix)[0] == core[0]);
    assert((core + suffix).take(core.len() as int) =~= core);
}

proof fn lemma_tags_differ(a: (u64, u64, u64), b: (u64, u64, u64))
    requires
        a != b,
    ensures
        tag_of(a) != tag_of(b),
{
    law_tags_are_read(a, Seq::empty());
    law_tags_are_read(b, Seq::empty());
    assert(tag_of(a) + Seq::<char>::empty() =~= tag_of(a));
    assert(tag_of(b) + Seq::<char>::empty() =~= tag_of(b));
}

/// Of two releases the one with the higher first number is newer, then the one with the higher
/// second number, then the one with the higher third number. The latest one is installed if and
/// only if it is newer than the one that runs.
pub proof fn law_higher_numbers_are_installed(latest: (u64, u64, u64), current: (u64, u64, u64))
    ensures
        ({
            let newer = latest.0 > current.0 || latest.0 == current.0 && latest.1 > current.1
                || latest.0 == current.0 && latest.1 == current.1 && latest.2 > current.2;
            decision_of(tag_of(latest), tag_of(current)) == Ok::<UpdateDecision, Seq<char>>(
                if latest == current {
                    UpdateDecision::UpToDate
                } else if newer {
                    UpdateDecision::Install
                } else {
                    UpdateDecision::Newer
                },
            )
        }),
{
    law_tags_are_read(latest, Seq::empty());
    law_tags_are_read(current, Seq::empty());
    assert(tag_of(latest) + Seq::<char>::empty() =~= tag_of(latest));
    assert(tag_of(current) + Seq::<char>::empty() =~= tag_of(current));
    if latest != current {
        lemma_tags_differ(latest, current);
    }
}

/// A file of a release is the first one that goes by the name, wherever one does.
pub proof fn law_first_file_of_a_name(assets: Seq<GitHubReleaseAsset>, name: Seq<char>)
    ensures
        match asset_position(assets, name) {
            Some(at) => 0 <= at < assets.len() && assets[at].name@ == name && forall|i: int|
                0 <= i < at ==> (#[trigger] assets[i]).name@ != name,
            None => forall|i: int| 0 <= i < assets.len() ==> (#[trigger] assets[i]).name@ != name,
        },
    decreases assets.len(),
{
    if assets.len() > 0 {
        let before = assets.drop_last();
        law_first_file_of_a_name(before, name);
        assert forall|i: int| 0 <= i < before.len() implies #[trigger] assets[i] == before[i] by {}
        assert(assets.last() == assets[assets.len() - 1]);
    }
}

proof fn lemma_blanks_skipped(gap: Seq<char>, rest: Seq<char>)
    requires
        is_blank(gap),
    ensures
        words_of(gap + rest) == words_of(rest),
    decreases gap.len(),
{
    if gap.len() == 0 {
        assert(gap + rest =~= rest);
    } else {
        let tail = gap.drop_first();
        assert forall|i: int| 0 <= i < tail.len() implies is_white_space(#[trigger] tail[i]) by {
            assert(tail[i] == gap[i + 1]);
        }
        lemma_blanks_skipped(tail, rest);
        assert(is_white_space(gap[0]));
        assert((gap + rest)[0] == gap[0]);
        assert((gap + rest).drop_first() =~= tail + rest);
        law_words_stand_between_spaces(seq!['x'], gap + rest);
    }
}

proof fn lemma_stars_skipped(stars: Seq<char>, name: Seq<char>)
    requires
        forall|i: int| 0 <= i < stars.len() ==> #[trigger] stars[i] == '*',
        name.len() == 0 || name[0] != '*',
    ensures
        stars_skipped(stars + name) == name,
    decreases stars.len(),
{
    let whole = stars + name;
    if stars.len() > 0 {
        assert(whole[0] == stars[0]);
        let tail = stars.drop_first();
        assert forall|i: int| 0 <= i < tail.len() implies #[trigger] tail[i] == '*' by {
            assert(tail[i] == stars[i + 1]);
        }
        lemma_stars_skipped(tail, name);
        assert(whole.drop_first() =~= tail + name);
    } else {
        assert(whole =~= name);
    }
}

/// A line of a manifest holds a checksum, white space, perhaps asterisks, and a name. It is about
/// the file of that name and about no other one, and gives the checksum in lower case.
pub proof fn law_manifest_lines_are_read(
    checksum: Seq<char>,
    gap: Seq<char>,
    stars: Seq<char>,
    name: Seq<char>,
    asset: Seq<char>,
)
    requires
        checksum.len() > 0,
        is_solid(checksum),
        gap.len() > 0,
        is_blank(gap),
        forall|i: int| 0 <= i < stars.len() ==> #[trigger] stars[i] == '*',
        name.len() > 0,
        is_solid(name),
        name[0] != '*',
    ensures
        is_entry_for(checksum + gap + stars + name, asset) <==> name == asset,
        entry_checksum(checksum + gap + stars + name) == lowered(checksum),
{
    let last = stars + name;
    let rest = gap + last;
    let line = checksum + gap + stars + name;
    assert(line =~= checksum + rest);
    assert(is_white_space(gap[0]));
    assert(rest[0] == gap[0]);
    law_words_stand_between_spaces(checksum, rest);
    lemma_blanks_skipped(gap, last);
    assert forall|i: int| 0 <= i < last.len() implies !is_white_space(#[trigger] last[i]) by {
        if i < stars.len() {
            assert(last[i] == stars[i]);
        } else {
            assert(last[i] == name[i - stars.len()]);
        }
    }
    law_words_stand_between_spaces(last, Seq::empty());
    assert(last + Seq::<char>::empty() =~= last);
    assert(words_of(line) =~= seq![checksum, last]);
    lemma_stars_skipped(stars, name);
}

proof fn lemma_only_entry(lines: Seq<Seq<char>>, asset: Seq<char>, at: int)
    requires
        is_only_entry(lines, asset, at),
    ensures
        manifest_entry(lines, asset) == (if is_checksum(entry_checksum(lines[at])) {
            Ok::<Option<Seq<char>>, ManifestFault>(Some(entry_checksum(lines[at])))
        } else {
            Err(ManifestFault::Invalid)
        }),
{
    law_one_entry_decides(lines, asset);
    match manifest_entry(lines, asset) {
        Ok(Some(checksum)) => {
            let other = choose|other: int|
                #[trigger] is_only_entry(lines, asset, other) && checksum == entry_checksum(
                    lines[other],
                );
            assert(other == at);
        },
        Ok(None) => {
            assert(!is_entry_for(lines[at], asset));
        },
        Err(ManifestFault::Duplicate) => {
            let (i, j) = choose|i: int, j: int|
                0 <= i < j < lines.len() && is_entry_for(#[trigger] lines[i], asset)
                    && is_entry_for(#[trigger] lines[j], asset);
            assert(i == at || j == at);
        },
        Err(ManifestFault::Invalid) => {
            let i = choose|i: int|
                0 <= i < lines.len() && is_entry_for(#[trigger] lines[i], asset) && !is_checksum(
                    entry_checksum(lines[i]),
                );
            assert(i == at);
        },
    }
}

/// A downloaded file is accepted where the manifest has just one line about it and gives the
/// digits of its digest there, in whatever case.
pub proof fn law_published_digests_are_accepted(
    digest: Seq<u8>,
    manifest: Seq<char>,
    asset: Seq<char>,
    at: int,
)
    requires
        digest.len() == 32,
        is_only_entry(lines_of(manifest), asset, at),
        lowered(words_of(lines_of(manifest)[at])[0]) == hex_of(digest),
    ensures
        digest_outcome(digest, manifest, asset) is Ok,
{
    law_hex_digits_are_read_back(digest, 0);
    assert forall|i: int| 0 <= i < hex_of(digest).len() implies is_hex_digit(
        #[trigger] hex_of(digest)[i],
    ) by {}
    lemma_only_entry(lines_of(manifest), asset, at);
}

/// No manifest accepts two different digests for a file.
pub proof fn law_one_digest_is_accepted(
    digest: Seq<u8>,
    other: Seq<u8>,
    manifest: Seq<char>,
    asset: Seq<char>,
)
    requires
        digest_outcome(digest, manifest, asset) is Ok,
        digest_outcome(other, manifest, asset) is Ok,
    ensures
        digest == other,
{
    assert(hex_of(digest) == hex_of(other));
    lemma_hex_length(digest);
    lemma_hex_length(other);
    assert forall|i: int| 0 <= i < digest.len() implies digest[i] == other[i] by {
        law_hex_digits_are_read_back(digest, i);
        law_hex_digits_are_read_back(other, i);
    }
    assert(digest =~= other);
}

/// Whether `text` is 64 hexadecimal digits, in whatever case.
pub open spec fn is_sha256_text(text: Seq<char>) -> bool {
    text.len() == 64 && forall|i: int|
        0 <= i < text.len() ==> ('0' <= #[trigger] text[i] <= '9' || 'a' <= text[i] <= 'f' || 'A'
            <= text[i] <= 'F')
}

/// The only line about a file gives its checksum, in lower case, if its first word is 64 hexadecimal
/// digits. Where it is anything else, the manifest is not valid.
pub proof fn law_checksums_are_hexadecimal_digits(
    lines: Seq<Seq<char>>,
    asset: Seq<char>,
    at: int,
)
    requires
        is_only_entry(lines, asset, at),
    ensures
        ({
            let word = words_of(lines[at])[0];
            manifest_entry(lines, asset) == if is_sha256_text(word) {
                Ok::<Option<Seq<char>>, ManifestFault>(Some(lowered(word)))
            } else {
                Err(ManifestFault::Invalid)
            }
        }),
{
    let word = words_of(lines[at])[0];
    law_lower_case(word);
    assert(is_checksum(lowered(word)) == is_sha256_text(word)) by {
        if is_checksum(lowered(word)) {
            assert forall|i: int| 0 <= i < word.len() implies ('0' <= #[trigger] word[i] <= '9'
                || 'a' <= word[i] <= 'f' || 'A' <= word[i] <= 'F') by {
                assert(is_hex_digit(lowered(word)[i]));
            }
        } else if is_sha256_text(word) {
            assert forall|i: int| 0 <= i < lowered(word).len() implies is_hex_digit(
                #[trigger] lowered(word)[i],
            ) by {
                assert('0' <= word[i] <= '9' || 'a' <= word[i] <= 'f' || 'A' <= word[i] <= 'F');
            }
        }
    }
    lemma_only_entry(lines, asset, at);
}

} // verus!
