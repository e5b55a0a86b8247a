//! How text takes up terminal columns: its display width and its grapheme clusters.

use unicode_segmentation::UnicodeSegmentation;
use unicode_width::UnicodeWidthStr;
use vstd::prelude::*;

use crate::text::is_control_char;
use crate::text::repeated;
use crate::text::texts_view;

verus! {

/// The number of terminal columns that `unicode_width` gives `text`.
pub uninterp spec fn found_width(text: Seq<char>) -> usize;

/// The extended grapheme clusters that `unicode_segmentation` finds in `text`.
pub uninterp spec fn found_clusters(text: Seq<char>) -> Seq<Seq<char>>;

/// Whether `c` is a printable ASCII character, a box drawing character or the ellipsis.
pub open spec fn is_plain_char(c: char) -> bool {
    ' ' <= c <= '~' || '\u{2500}' <= c <= '\u{257f}' || c == '…'
}

/// Whether `text` holds only characters of one column each that combine with nothing.
pub open spec fn is_plain_text(text: Seq<char>) -> bool {
    forall|i: int| 0 <= i < text.len() ==> is_plain_char(#[trigger] text[i])
}

/// `s` without the spaces at its start.
pub open spec fn spaces_dropped_before(s: Seq<char>) -> Seq<char>
    decreases s.len(),
{
    if s.len() > 0 && s[0] == ' ' {
        spaces_dropped_before(s.drop_first())
    } else {
        s
    }
}

/// `s` without the spaces at its end.
pub open spec fn spaces_dropped_behind(s: Seq<char>) -> Seq<char>
    decreases s.len(),
{
    if s.len() > 0 && s.last() == ' ' {
        spaces_dropped_behind(s.drop_last())
    } else {
        s
    }
}

/// `s` without the spaces around it.
pub open spec fn spaces_dropped(s: Seq<char>) -> Seq<char> {
    spaces_dropped_behind(spaces_dropped_before(s))
}

/// The number of terminal columns that `text` takes up: one for each character where all are
/// plain, else one for each space around it and what `unicode_width` gives the rest.
pub open spec fn text_width(text: Seq<char>) -> nat {
    if is_plain_text(text) {
        text.len()
    } else {
        (text.len() - spaces_dropped(text).len() + found_width(spaces_dropped(text))) as nat
    }
}

/// The texts of `parts`, one after the other.
pub open spec fn joined(parts: Seq<Seq<char>>) -> Seq<char>
    decreases parts.len(),
{
    if parts.len() == 0 {
        Seq::empty()
    } else {
        joined(parts.drop_last()) + parts.last()
    }
}

/// Whether `text` holds a control character.
pub open spec fn holds_control(text: Seq<char>) -> bool {
    exists|i: int| 0 <= i < text.len() && is_control_char(#[trigger] text[i])
}

/// Whether `part` is not empty, and holds a control character only where it is that character
/// alone, or a carriage return and a line feed.
pub open spec fn is_cluster(part: Seq<char>) -> bool {
    part.len() > 0 && (holds_control(part) ==> part.len() == 1 || part == seq!['\r', '\n'])
}

/// Whether `parts` make up `text`, each of them as a grapheme cluster does.
pub open spec fn is_division(parts: Seq<Seq<char>>, text: Seq<char>) -> bool {
    joined(parts) == text && forall|i: int|
        0 <= i < parts.len() ==> is_cluster(#[trigger] parts[i])
}

/// The characters of `text`, each by itself.
pub open spec fn single_chars(text: Seq<char>) -> Seq<Seq<char>> {
    Seq::new(text.len(), |i: int| seq![text[i]])
}

/// The extended grapheme clusters of `text`: its characters where all are plain, else those that
/// `unicode_segmentation` finds. They divide the text; what did not would be taken character by
/// character.
pub open spec fn clusters(text: Seq<char>) -> Seq<Seq<char>> {
    if is_division(found_clusters(text), text) && !is_plain_text(text) {
        found_clusters(text)
    } else {
        single_chars(text)
    }
}

proof fn lemma_single_chars(text: Seq<char>)
    ensures
        joined(single_chars(text)) == text,
    decreases text.len(),
{
    if text.len() > 0 {
        lemma_single_chars(text.drop_last());
        assert(single_chars(text).drop_last() =~= single_chars(text.drop_last()));
        assert(joined(single_chars(text)) =~= text);
    }
}

/// The clusters of a text make it up, and none of them joins a control character to anything
/// but a carriage return to a line feed.
pub proof fn law_clusters_divide(text: Seq<char>)
    ensures
        is_division(clusters(text), text),
{
    lemma_single_chars(text);
}

proof fn lemma_before(s: Seq<char>, n: nat, at: int)
    requires
        0 <= at < s.len(),
        s[at] != ' ',
    ensures
        spaces_dropped_before(repeated(' ', n) + s) == spaces_dropped_before(s),
        spaces_dropped_before(s + repeated(' ', n)) == spaces_dropped_before(s) + repeated(' ', n),
    decreases s.len() + n,
{
    let front = repeated(' ', n) + s;
    if n > 0 {
        lemma_before(s, (n - 1) as nat, at);
        assert(front.drop_first() =~= repeated(' ', (n - 1) as nat) + s);
    } else {
        assert(front =~= s);
    }
    if s[0] == ' ' {
        lemma_before(s.drop_first(), n, at - 1);
        assert((s + repeated(' ', n)).drop_first() =~= s.drop_first() + repeated(' ', n));
    }
}

proof fn lemma_behind(s: Seq<char>, n: nat)
    ensures
        spaces_dropped_behind(s + repeated(' ', n)) == spaces_dropped_behind(s),
    decreases n,
{
    let back = s + repeated(' ', n);
    if n > 0 {
        lemma_behind(s, (n - 1) as nat);
        assert(back.drop_last() =~= s + repeated(' ', (n - 1) as nat));
    } else {
        assert(back =~= s);
    }
}

proof fn lemma_dropped_length(s: Seq<char>)
    ensures
        spaces_dropped(s).len() <= s.len(),
{
    lemma_before_length(s);
    lemma_behind_length(spaces_dropped_before(s));
}

proof fn lemma_before_length(s: Seq<char>)
    ensures
        spaces_dropped_before(s).len() <= s.len(),
    decreases s.len(),
{
    if s.len() > 0 && s[0] == ' ' {
        lemma_before_length(s.drop_first());
    }
}

proof fn lemma_behind_length(s: Seq<char>)
    ensures
        spaces_dropped_behind(s).len() <= s.len(),
    decreases s.len(),
{
    if s.len() > 0 && s.last() == ' ' {
        lemma_behind_length(s.drop_last());
    }
}

/// Spaces before and behind a text make it as many columns wider.
pub proof fn law_spaces_add_up(text: Seq<char>, n: nat)
    ensures
        text_width(text + repeated(' ', n)) == text_width(text) + n,
        text_width(repeated(' ', n) + text) == text_width(text) + n,
{
    let back = text + repeated(' ', n);
    let front = repeated(' ', n) + text;
    if is_plain_text(text) {
        assert(is_plain_text(back));
        assert(is_plain_text(front));
    } else {
        let at = choose|i: int| 0 <= i < text.len() && !is_plain_char(#[trigger] text[i]);
        assert(!is_plain_char(back[at]));
        assert(!is_plain_char(front[n + at]));
        lemma_before(text, n, at);
        lemma_behind(spaces_dropped_before(text), n);
        lemma_dropped_length(text);
    }
}

/// `UnicodeWidthStr::width`: the display width of `text`.
///
/// Where all are printable ASCII characters, box drawing characters and ellipses, each takes up one
/// column. A space
/// takes up one whatever stands next to it, and leaves the width of the rest as it is.
#[verifier::external_body]
fn measure_width(text: &str) -> (r: usize)
    ensures
        r == found_width(text@),
        is_plain_text(text@) ==> r == text@.len(),
        r == text@.len() - spaces_dropped(text@).len() + found_width(spaces_dropped(text@)),
{
    UnicodeWidthStr::width(text)
}

/// The display width of `text` in terminal columns.
pub fn display_width(text: &str) -> (r: usize)
    ensures
        r == text_width(text@),
{
    measure_width(text)
}

/// `UnicodeSegmentation::graphemes` with extended clusters: the clusters of `text`, in order.
///
/// They divide `text`, there is a boundary around each control character but for that between
/// a carriage return and a line feed, and where a boundary lies depends on nothing behind the
/// character that follows it: the text of the first few clusters has just these for its own.
/// Where these hold nothing but printable ASCII characters, box drawing characters and ellipses,
/// each of the characters is a cluster by itself.
#[verifier::external_body]
fn find_clusters(text: &str) -> (r: Vec<String>)
    ensures
        texts_view(r@) == found_clusters(text@),
        is_division(texts_view(r@), text@),
        forall|k: int|
            0 <= k <= r@.len() ==> found_clusters(joined(#[trigger] texts_view(r@).take(k)))
                == texts_view(r@).take(k),
        forall|k: int|
            0 <= k <= r@.len() && is_plain_text(joined(#[trigger] texts_view(r@).take(k)))
                ==> texts_view(r@).take(k) == single_chars(joined(texts_view(r@).take(k))),
{
    text.graphemes(true).map(str::to_owned).collect()
}

/// The grapheme clusters of `text`, in order. The text of the first few of them has just these
/// for its own clusters.
pub fn graphemes(text: &str) -> (r: Vec<String>)
    ensures
        texts_view(r@) == clusters(text@),
        forall|k: int|
            0 <= k <= r@.len() ==> clusters(joined(#[trigger] texts_view(r@).take(k)))
                == texts_view(r@).take(k),
{
    let parts = find_clusters(text);
    let ghost all = texts_view(parts@);
    assert forall|k: int| 0 <= k <= parts@.len() implies clusters(joined(#[trigger] all.take(k)))
        == all.take(k) by {
        assert forall|i: int| 0 <= i < k implies is_cluster(#[trigger] all.take(k)[i]) by {
            assert(is_cluster(all[i]));
        }
        assert(is_division(all.take(k), joined(all.take(k))));
    }
    assert(all.take(all.len() as int) =~= all);
    parts
}

/// The columns of `parts`, counted part by part.
pub open spec fn total_width(parts: Seq<Seq<char>>) -> nat
    decreases parts.len(),
{
    if parts.len() == 0 {
        0
    } else {
        total_width(parts.drop_last()) + text_width(parts.last())
    }
}

/// The leading part of `parts` that fits into `width` columns, counted part by part.
pub open spec fn fitting_text(parts: Seq<Seq<char>>, width: int) -> Seq<char>
    decreases parts.len(),
{
    if parts.len() == 0 || text_width(parts[0]) > width {
        Seq::empty()
    } else {
        parts[0] + fitting_text(parts.drop_first(), width - text_width(parts[0]))
    }
}

/// `text` cut after the last grapheme cluster that still fits into `width` columns.
pub fn truncate_plain(text: &str, width: usize) -> (r: String)
    ensures
        r@ == fitting_text(clusters(text@), width as int),
{
    let parts = graphemes(text);
    let ghost all = texts_view(parts@);
    let mut output = String::new();
    let mut remaining = width;
    assert(all.skip(0) =~= all);
    for i in 0..parts.len()
        invariant
            all == texts_view(parts@),
            all == clusters(text@),
            output@ + fitting_text(all.skip(i as int), remaining as int) == fitting_text(
                all,
                width as int,
            ),
    {
        let part_width = display_width(&parts[i]);
        assert(all.skip(i as int)[0] == parts@[i as int]@);
        assert(all.skip(i as int).drop_first() =~= all.skip(i + 1));
        if part_width > remaining {
            assert(output@ + Seq::<char>::empty() =~= output@);
            return output;
        }
        let ghost before = output@;
        output.append(&parts[i]);
        remaining = remaining - part_width;
        assert(before + (parts@[i as int]@ + fitting_text(all.skip(i + 1), remaining as int))
            =~= output@ + fitting_text(all.skip(i + 1), remaining as int));
    }
    assert(output@ + Seq::<char>::empty() =~= output@);
    output
}

} // verus!
