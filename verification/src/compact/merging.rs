//! How the sections of a summary come together.

use vstd::prelude::*;

use crate::compact::kept_sections;
use crate::compact::sections_merged;
use crate::parts::joined_with;
use crate::text::is_blank;
use crate::text::is_white_space;
use crate::text::trimmed;
use crate::text::trimmed_end;
use crate::text::trimmed_start;

verus! {

/// Whether `text` is not empty and neither begins nor ends with white space.
spec fn is_tight(text: Seq<char>) -> bool {
    text.len() > 0 && !is_white_space(text[0]) && !is_white_space(text.last())
}

proof fn lemma_start_cut(s: Seq<char>)
    ensures
        trimmed_start(s).len() > 0 ==> !is_white_space(trimmed_start(s)[0]),
        trimmed_start(s).len() == 0 <==> is_blank(s),
    decreases s.len(),
{
    if s.len() > 0 && is_white_space(s[0]) {
        lemma_start_cut(s.drop_first());
        if is_blank(s.drop_first()) {
            assert forall|i: int| 0 <= i < s.len() implies is_white_space(#[trigger] s[i]) by {
                if i > 0 {
                    assert(s.drop_first()[i - 1] == s[i]);
                }
            }
        } else if is_blank(s) {
            assert forall|i: int| 0 <= i < s.drop_first().len() implies is_white_space(
                #[trigger] s.drop_first()[i],
            ) by {
                assert(s.drop_first()[i] == s[i + 1]);
            }
        }
    }
}

proof fn lemma_end_cut(s: Seq<char>)
    requires
        s.len() > 0,
        !is_white_space(s[0]),
    ensures
        is_tight(trimmed_end(s)),
    decreases s.len(),
{
    if is_white_space(s.last()) {
        assert(s.drop_last()[0] == s[0]);
        lemma_end_cut(s.drop_last());
    }
}

proof fn lemma_trimmed(s: Seq<char>)
    ensures
        trimmed(s).len() == 0 <==> is_blank(s),
        trimmed(s).len() > 0 ==> is_tight(trimmed(s)),
{
    lemma_start_cut(s);
    if trimmed_start(s).len() > 0 {
        lemma_end_cut(trimmed_start(s));
    }
}

proof fn lemma_tight_sections(sections: Seq<Seq<char>>)
    ensures
        forall|i: int|
            0 <= i < kept_sections(sections).len() ==> is_tight(
                #[trigger] kept_sections(sections)[i],
            ),
        kept_sections(sections).len() == 0 <==> forall|i: int|
            0 <= i < sections.len() ==> is_blank(#[trigger] sections[i]),
    decreases sections.len(),
{
    if sections.len() > 0 {
        let before = sections.drop_last();
        lemma_tight_sections(before);
        lemma_trimmed(sections.last());
        if kept_sections(sections).len() == 0 {
            assert forall|i: int| 0 <= i < sections.len() implies is_blank(
                #[trigger] sections[i],
            ) by {
                if i < before.len() {
                    assert(before[i] == sections[i]);
                }
            }
        } else if kept_sections(before).len() > 0 {
            let i = choose|i: int| 0 <= i < before.len() && !is_blank(#[trigger] before[i]);
            assert(before[i] == sections[i]);
        }
    }
}

proof fn lemma_joined_is_tight(parts: Seq<Seq<char>>, separator: Seq<char>)
    requires
        parts.len() > 0,
        forall|i: int| 0 <= i < parts.len() ==> is_tight(#[trigger] parts[i]),
    ensures
        is_tight(joined_with(parts, separator)),
    decreases parts.len(),
{
    assert(is_tight(parts[parts.len() - 1]));
    if parts.len() > 1 {
        let before = parts.drop_last();
        assert forall|i: int| 0 <= i < before.len() implies is_tight(#[trigger] before[i]) by {
            assert(before[i] == parts[i]);
        }
        lemma_joined_is_tight(before, separator);
        let all = joined_with(parts, separator);
        assert(all[0] == joined_with(before, separator)[0]);
        assert(all.last() == parts.last().last());
    }
}

proof fn lemma_joined_in_two(first: Seq<Seq<char>>, second: Seq<Seq<char>>, separator: Seq<char>)
    requires
        first.len() > 0,
        second.len() > 0,
    ensures
        joined_with(first + second, separator) == joined_with(first, separator) + separator
            + joined_with(second, separator),
    decreases second.len(),
{
    let all = first + second;
    assert(all.last() == second.last());
    assert(all.drop_last() =~= first + second.drop_last());
    if second.len() == 1 {
        assert(first + second.drop_last() =~= first);
    } else {
        lemma_joined_in_two(first, second.drop_last(), separator);
        assert(joined_with(all, separator) =~= joined_with(first, separator) + separator
            + joined_with(second, separator));
    }
}

proof fn lemma_kept_in_two(first: Seq<Seq<char>>, second: Seq<Seq<char>>)
    ensures
        kept_sections(first + second) == kept_sections(first) + kept_sections(second),
    decreases second.len(),
{
    let all = first + second;
    if second.len() == 0 {
        assert(all =~= first);
        assert(kept_sections(first) + kept_sections(second) =~= kept_sections(first));
    } else {
        lemma_kept_in_two(first, second.drop_last());
        assert(all.last() == second.last());
        assert(all.drop_last() =~= first + second.drop_last());
        assert(kept_sections(all) =~= kept_sections(first) + kept_sections(second));
    }
}

/// What is kept of two sections that are empty or tight.
proof fn lemma_two_kept(first: Seq<char>, second: Seq<char>)
    requires
        first.len() > 0 ==> is_tight(first),
        second.len() > 0 ==> is_tight(second),
    ensures
        kept_sections(seq![first, second]) == (if first.len() > 0 {
            seq![first]
        } else {
            Seq::empty()
        }) + (if second.len() > 0 {
            seq![second]
        } else {
            Seq::empty()
        }),
{
    reveal_with_fuel(kept_sections, 3);
    let both = seq![first, second];
    assert(both.drop_last() =~= seq![first]);
    assert(seq![first].drop_last() =~= Seq::<Seq<char>>::empty());
    assert(kept_sections(both) =~= (if first.len() > 0 {
        seq![first]
    } else {
        Seq::empty()
    }) + (if second.len() > 0 {
        seq![second]
    } else {
        Seq::empty()
    }));
}

proof fn lemma_merged(sections: Seq<Seq<char>>)
    ensures
        sections_merged(sections).len() > 0 ==> is_tight(sections_merged(sections)),
        sections_merged(sections).len() == 0 <==> kept_sections(sections).len() == 0,
{
    lemma_tight_sections(sections);
    if kept_sections(sections).len() > 0 {
        lemma_joined_is_tight(kept_sections(sections), "\n\n"@);
    }
}

/// Sections that are merged in two parts, and then the parts, come to what they do at once.
pub proof fn law_sections_merge_in_parts(first: Seq<Seq<char>>, second: Seq<Seq<char>>)
    ensures
        sections_merged(first + second) == sections_merged(
            seq![sections_merged(first), sections_merged(second)],
        ),
{
    let one = sections_merged(first);
    let two = sections_merged(second);
    lemma_merged(first);
    lemma_merged(second);
    lemma_kept_in_two(first, second);
    lemma_two_kept(one, two);
    let kept = kept_sections(seq![one, two]);
    if one.len() == 0 {
        assert(kept_sections(first + second) =~= kept_sections(second));
        if two.len() == 0 {
            assert(kept =~= Seq::<Seq<char>>::empty());
        } else {
            assert(kept =~= seq![two]);
        }
    } else if two.len() == 0 {
        assert(kept_sections(first + second) =~= kept_sections(first));
        assert(kept =~= seq![one]);
    } else {
        lemma_joined_in_two(kept_sections(first), kept_sections(second), "\n\n"@);
        assert(kept =~= seq![one, two]);
        assert(kept.drop_last() =~= seq![one]);
        reveal_with_fuel(joined_with, 2);
        assert(joined_with(kept, "\n\n"@) =~= one + "\n\n"@ + two);
    }
}

/// One section comes to what it is without the white space around it.
pub proof fn law_one_section_is_trimmed(section: Seq<char>)
    ensures
        sections_merged(seq![section]) == trimmed(section),
{
    reveal_with_fuel(kept_sections, 2);
    let kept = kept_sections(seq![section]);
    assert(seq![section].drop_last() =~= Seq::<Seq<char>>::empty());
    if trimmed(section).len() > 0 {
        assert(kept =~= seq![trimmed(section)]);
    } else {
        assert(kept =~= Seq::<Seq<char>>::empty());
        assert(sections_merged(seq![section]) =~= trimmed(section));
    }
}

/// A summary is empty if and only if each of its sections is blank.
pub proof fn law_only_blank_sections_come_to_nothing(sections: Seq<Seq<char>>)
    ensures
        sections_merged(sections).len() == 0 <==> forall|i: int|
            0 <= i < sections.len() ==> is_blank(#[trigger] sections[i]),
{
    lemma_tight_sections(sections);
    lemma_merged(sections);
}

/// A section stands below the ones before it, with an empty line in between, and a blank one leaves no
/// trace.
pub proof fn law_sections_stand_apart(sections: Seq<Seq<char>>, section: Seq<char>)
    ensures
        ({
            let before = sections_merged(sections);
            sections_merged(sections.push(section)) == if is_blank(section) {
                before
            } else if before.len() == 0 {
                trimmed(section)
            } else {
                before + "\n\n"@ + trimmed(section)
            }
        }),
{
    let all = sections.push(section);
    assert(all.drop_last() =~= sections);
    lemma_trimmed(section);
    lemma_merged(sections);
    let kept = kept_sections(sections);
    if !is_blank(section) {
        let now = kept.push(trimmed(section));
        assert(now.drop_last() =~= kept);
        assert(kept_sections(all) == now);
    }
}

} // verus!
