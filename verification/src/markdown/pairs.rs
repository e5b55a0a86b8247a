//! Which markers of strong emphasis belong together: those that match as brackets do.

use vstd::prelude::*;

use crate::markdown::closes_by_compatibility;
use crate::markdown::lemma_pairing_lengths;
use crate::markdown::marker_paired;
use crate::markdown::opens_by_compatibility;
use crate::markdown::pairing_of;
use crate::markdown::MarkerText;

verus! {

/// How much emphasis is open before the marker `index`.
pub open spec fn depth(markers: Seq<MarkerText>, index: int) -> int
    decreases index,
{
    if index <= 0 {
        0
    } else {
        let before = depth(markers, index - 1);
        if closes(markers[index - 1], before) {
            before - 1
        } else if opens(markers[index - 1], before) {
            before + 1
        } else {
            before
        }
    }
}

/// Whether `marker` closes where `depth` emphases are open: any that can, as soon as there is
/// something to close.
pub open spec fn closes(marker: MarkerText, depth: int) -> bool {
    depth > 0 && (marker.standard_close || marker.compatibility_close)
}

/// Whether `marker` opens where `depth` emphases are open: any that can, unless it closes.
pub open spec fn opens(marker: MarkerText, depth: int) -> bool {
    !closes(marker, depth) && (marker.standard_open || marker.compatibility_open)
}

/// Whether the marker `close` closes what the marker `open` has opened: what is open in between
/// has been closed by then.
pub open spec fn are_matched(markers: Seq<MarkerText>, open: int, close: int) -> bool {
    &&& 0 <= open < close < markers.len()
    &&& opens(markers[open], depth(markers, open))
    &&& closes(markers[close], depth(markers, close))
    &&& depth(markers, close + 1) == depth(markers, open)
    &&& forall|i: int| open < i <= close ==> #[trigger] depth(markers, i) > depth(markers, open)
}

/// Whether the marker `open` has been closed by one of the first `count`.
spec fn is_closed(markers: Seq<MarkerText>, open: int, count: int) -> bool {
    exists|close: int| close < count && #[trigger] are_matched(markers, open, close)
}

/// Whether the marker `close` is one of the first `count` and closes something.
spec fn has_opened(markers: Seq<MarkerText>, close: int, count: int) -> bool {
    close < count && exists|open: int| #[trigger] are_matched(markers, open, close)
}

/// Whether the markers `open` are those of the first `count` that are still open.
spec fn are_open(markers: Seq<MarkerText>, open: Seq<int>, count: int) -> bool {
    &&& open.len() == depth(markers, count)
    &&& forall|d: int|
        0 <= d < open.len() ==> 0 <= #[trigger] open[d] < count && opens(
            markers[open[d]],
            depth(markers, open[d]),
        ) && depth(markers, open[d]) == d
    &&& forall|d: int, i: int|
        0 <= d < open.len() && #[trigger] open[d] < i <= count ==> #[trigger] depth(markers, i) > d
}

proof fn lemma_paired(markers: Seq<MarkerText>, count: int)
    requires
        0 <= count <= markers.len(),
    ensures
        are_open(markers, pairing_of(markers, count).open, count),
        forall|i: int|
            0 <= i < markers.len() ==> {
                &&& #[trigger] pairing_of(markers, count).before[i] == (opens_by_compatibility(
                    markers[i],
                ) && is_closed(markers, i, count))
            },
        forall|i: int|
            0 <= i < markers.len() ==> {
                &&& #[trigger] pairing_of(markers, count).after[i] == (closes_by_compatibility(
                    markers[i],
                ) && has_opened(markers, i, count))
            },
    decreases count,
{
    if count > 0 {
        let at = count - 1;
        lemma_paired(markers, at);
        lemma_pairing_lengths(markers, at);
        let before = pairing_of(markers, at);
        let after = pairing_of(markers, count);
        assert(after == marker_paired(before, markers, at));
        let marker = markers[at];
        let here = depth(markers, at);
        if closes(marker, here) {
            let opening = before.open.last();
            let d = before.open.len() - 1;
            assert(opening == before.open[d]);
            assert(depth(markers, count) == d);
            assert forall|i: int| opening < i <= at implies #[trigger] depth(markers, i) > depth(
                markers,
                opening,
            ) by {
                assert(before.open[d] < i <= at);
            }
            assert(are_matched(markers, opening, at));
            assert forall|i: int| 0 <= i < markers.len() implies is_closed(markers, i, count) == (
            i == opening || is_closed(markers, i, at)) by {
                if is_closed(markers, i, count) && i != opening {
                    let close = choose|close: int|
                        close < count && #[trigger] are_matched(markers, i, close);
                    if close == at {
                        if i < opening {
                            assert(depth(markers, opening) > depth(markers, i));
                        } else {
                            assert(before.open[d] < i <= at);
                            assert(depth(markers, i) > d);
                        }
                    }
                }
            }
        } else {
            assert forall|i: int| 0 <= i < markers.len() implies is_closed(markers, i, count)
                == is_closed(markers, i, at) by {
                if is_closed(markers, i, count) {
                    let close = choose|close: int|
                        close < count && #[trigger] are_matched(markers, i, close);
                    assert(close != at);
                }
            }
        }
        assert forall|i: int| 0 <= i < markers.len() implies has_opened(markers, i, count) == (
        has_opened(markers, i, at) || (i == at && closes(marker, here))) by {}
        assert forall|d: int| 0 <= d < after.open.len() implies 0 <= #[trigger] after.open[d]
            < count && opens(markers[after.open[d]], depth(markers, after.open[d])) && depth(
            markers,
            after.open[d],
        ) == d by {
            if d < before.open.len() {
                assert(after.open[d] == before.open[d]);
            }
        }
        assert forall|d: int, i: int|
            0 <= d < after.open.len() && #[trigger] after.open[d] < i
                <= count implies #[trigger] depth(markers, i) > d by {
            if d < before.open.len() {
                assert(after.open[d] == before.open[d]);
                if i < count {
                    assert(before.open[d] < i <= at);
                }
            }
        }
    } else {
        assert forall|i: int| 0 <= i < markers.len() implies !is_closed(markers, i, 0) by {}
    }
}

/// Sentinels go to markers that belong together: before one that opens only by the rules for East
/// Asian text, wherever another one closes it, and behind one that closes only by those rules,
/// wherever it closes anything.
pub proof fn law_sentinels_go_to_markers_that_match(markers: Seq<MarkerText>, index: int)
    requires
        0 <= index < markers.len(),
    ensures
        pairing_of(markers, markers.len() as int).before[index] <==> {
            &&& markers[index].compatibility_open && !markers[index].standard_open
            &&& exists|close: int| #[trigger] are_matched(markers, index, close)
        },
        pairing_of(markers, markers.len() as int).after[index] <==> {
            &&& markers[index].compatibility_close && !markers[index].standard_close
            &&& exists|open: int| #[trigger] are_matched(markers, open, index)
        },
{
    lemma_paired(markers, markers.len() as int);
    let pairing = pairing_of(markers, markers.len() as int);
    assert(pairing.before[index] == (opens_by_compatibility(markers[index]) && is_closed(
        markers,
        index,
        markers.len() as int,
    )));
    assert(pairing.after[index] == (closes_by_compatibility(markers[index]) && has_opened(
        markers,
        index,
        markers.len() as int,
    )));
}

} // verus!
