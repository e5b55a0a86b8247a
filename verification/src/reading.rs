//! What texts are taken apart into, held against the texts: what has been written is read back.

use vstd::prelude::*;

use crate::parts::fields_of;
use crate::parts::hex_of;
use crate::parts::is_digit;
use crate::parts::is_number;
use crate::parts::joined_with;
use crate::parts::lemma_hex_length;
use crate::parts::lemma_line_length;
use crate::parts::lemma_trimmed_start;
use crate::parts::lemma_word_length;
use crate::parts::line_body;
use crate::parts::line_length;
use crate::parts::lines_of;
use crate::parts::number_of;
use crate::parts::position_of;
use crate::parts::source_lines;
use crate::parts::words_of;
use crate::text::decimal;
use crate::text::first_word;
use crate::text::is_blank;
use crate::text::is_white_space;
use crate::text::lowered;
use crate::text::trimmed;
use crate::text::trimmed_end;
use crate::text::trimmed_start;
use crate::text::word_length;

verus! {

/// What a hexadecimal digit in lower case stands for.
pub open spec fn hex_value(c: char) -> int {
    if '0' <= c <= '9' {
        c as int - '0' as int
    } else {
        c as int - 'a' as int + 10
    }
}

/// A number is read back from its digits, which begin with no zero unless there is just one.
pub proof fn law_decimals_are_read_back(value: nat)
    ensures
        number_of(decimal(value)) == value,
        decimal(value).len() > 0,
        forall|i: int| 0 <= i < decimal(value).len() ==> is_digit(#[trigger] decimal(value)[i]),
        decimal(value).len() > 1 ==> decimal(value)[0] != '0',
        value <= u64::MAX ==> is_number(decimal(value)),
    decreases value,
{
    let digits = decimal(value);
    if value < 10 {
        assert(number_of(digits.drop_last()) == 0);
    } else {
        law_decimals_are_read_back(value / 10);
        assert(digits.drop_last() =~= decimal(value / 10));
        if decimal(value / 10).len() == 1 {
            assert(number_of(decimal(value / 10).drop_last()) == 0);
            assert(decimal(value / 10)[0] == '0' ==> value / 10 == 0);
        }
    }
}

/// Bytes are read back from their hexadecimal digits, two for each.
pub proof fn law_hex_digits_are_read_back(bytes: Seq<u8>, index: int)
    requires
        0 <= index < bytes.len(),
    ensures
        hex_of(bytes).len() == 2 * bytes.len(),
        16 * hex_value(hex_of(bytes)[2 * index]) + hex_value(hex_of(bytes)[2 * index + 1])
            == bytes[index],
        forall|i: int|
            0 <= i < hex_of(bytes).len() ==> {
                let c = #[trigger] hex_of(bytes)[i];
                '0' <= c <= '9' || 'a' <= c <= 'f'
            },
    decreases bytes.len(),
{
    lemma_hex_length(bytes);
    lemma_hex_length(bytes.drop_last());
    if index < bytes.len() - 1 {
        law_hex_digits_are_read_back(bytes.drop_last(), index);
        assert(bytes.drop_last()[index] == bytes[index]);
    } else if bytes.len() > 1 {
        law_hex_digits_are_read_back(bytes.drop_last(), 0);
    }
}

proof fn lemma_first_position(field: Seq<char>, rest: Seq<char>, separator: char)
    requires
        !field.contains(separator),
    ensures
        position_of(field, separator) == field.len(),
        position_of(field.push(separator) + rest, separator) == field.len(),
    decreases field.len(),
{
    let whole = field.push(separator) + rest;
    if field.len() > 0 {
        assert(field.contains(field[0]));
        assert(whole[0] == field[0]);
        let tail = field.drop_first();
        assert(!tail.contains(separator)) by {
            if tail.contains(separator) {
                let i = choose|i: int| 0 <= i < tail.len() && tail[i] == separator;
                assert(field[i + 1] == separator);
            }
        }
        lemma_first_position(tail, rest, separator);
        assert(whole.drop_first() =~= tail.push(separator) + rest);
    } else {
        assert(whole[0] == separator);
    }
}

/// What stands between separators: the text up to the first one, and then the fields behind it. A
/// text without a separator is its only field.
pub proof fn law_fields_stand_between_separators(field: Seq<char>, rest: Seq<char>, separator: char)
    requires
        !field.contains(separator),
    ensures
        fields_of(field, separator) == seq![field],
        fields_of(field.push(separator) + rest, separator) == seq![field] + fields_of(
            rest,
            separator,
        ),
{
    lemma_first_position(field, rest, separator);
    let whole = field.push(separator) + rest;
    assert(whole.take(field.len() as int) =~= field);
    assert(whole.skip((field.len() + 1) as int) =~= rest);
}

proof fn lemma_first_joined(parts: Seq<Seq<char>>, separator: Seq<char>)
    requires
        parts.len() > 1,
    ensures
        joined_with(parts, separator) == parts[0] + separator + joined_with(
            parts.drop_first(),
            separator,
        ),
    decreases parts.len(),
{
    if parts.len() == 2 {
        reveal_with_fuel(joined_with, 2);
        assert(parts.drop_last() =~= seq![parts[0]]);
        assert(parts.drop_first() =~= seq![parts[1]]);
    } else {
        lemma_first_joined(parts.drop_last(), separator);
        assert(parts.drop_last().drop_first() =~= parts.drop_first().drop_last());
        assert(joined_with(parts, separator) =~= parts[0] + separator + joined_with(
            parts.drop_first(),
            separator,
        ));
    }
}

/// Fields that hold no separator are read back from what they are joined to.
pub proof fn law_joined_fields_are_read_back(parts: Seq<Seq<char>>, separator: char)
    requires
        parts.len() > 0,
        forall|i: int| 0 <= i < parts.len() ==> !(#[trigger] parts[i]).contains(separator),
    ensures
        fields_of(joined_with(parts, seq![separator]), separator) == parts,
    decreases parts.len(),
{
    let rest = parts.drop_first();
    assert(!parts[0].contains(separator));
    if parts.len() == 1 {
        law_fields_stand_between_separators(parts[0], Seq::empty(), separator);
        assert(parts =~= seq![parts[0]]);
    } else {
        lemma_first_joined(parts, seq![separator]);
        assert forall|i: int| 0 <= i < rest.len() implies !(#[trigger] rest[i]).contains(
            separator,
        ) by {
            assert(rest[i] == parts[i + 1]);
        }
        law_joined_fields_are_read_back(rest, separator);
        let behind = joined_with(rest, seq![separator]);
        law_fields_stand_between_separators(parts[0], behind, separator);
        assert(parts[0] + seq![separator] + behind =~= parts[0].push(separator) + behind);
        assert(seq![parts[0]] + rest =~= parts);
    }
}

proof fn lemma_start_trimmed(s: Seq<char>)
    ensures
        trimmed_start(s).len() <= s.len(),
        is_blank(s.take(s.len() - trimmed_start(s).len())),
        s.skip(s.len() - trimmed_start(s).len()) == trimmed_start(s),
        trimmed_start(s).len() > 0 ==> !is_white_space(trimmed_start(s)[0]),
    decreases s.len(),
{
    let cut = s.len() - trimmed_start(s).len();
    if s.len() > 0 && is_white_space(s[0]) {
        let rest = s.drop_first();
        lemma_start_trimmed(rest);
        let inner = rest.len() - trimmed_start(rest).len();
        assert forall|i: int| 0 <= i < cut implies is_white_space(#[trigger] s.take(cut)[i]) by {
            if i > 0 {
                assert(rest.take(inner)[i - 1] == s[i]);
            }
        }
        assert(s.skip(cut) =~= rest.skip(inner));
    } else {
        assert(s.skip(0) =~= s);
    }
}

proof fn lemma_end_trimmed(s: Seq<char>)
    ensures
        trimmed_end(s).len() <= s.len(),
        is_blank(s.skip(trimmed_end(s).len() as int)),
        s.take(trimmed_end(s).len() as int) == trimmed_end(s),
        trimmed_end(s).len() > 0 ==> !is_white_space(trimmed_end(s).last()),
    decreases s.len(),
{
    let kept = trimmed_end(s).len() as int;
    if s.len() > 0 && is_white_space(s.last()) {
        let rest = s.drop_last();
        lemma_end_trimmed(rest);
        assert forall|i: int| 0 <= i < s.len() - kept implies is_white_space(
            #[trigger] s.skip(kept)[i],
        ) by {
            if i < rest.len() - kept {
                assert(rest.skip(kept)[i] == s[kept + i]);
            }
        }
        assert(s.take(kept) =~= rest.take(kept));
    } else {
        assert(s.take(kept) =~= s);
    }
}

/// Whether `s` is `inner` between white space.
pub open spec fn stands_between_spaces(s: Seq<char>, inner: Seq<char>, from: int) -> bool {
    &&& 0 <= from <= from + inner.len() <= s.len()
    &&& s.subrange(from, from + inner.len()) == inner
    &&& is_blank(s.take(from))
    &&& is_blank(s.skip(from + inner.len()))
}

/// Trimming takes away white space around a text, all of it and nothing else.
pub proof fn law_trimming_takes_the_space_around(s: Seq<char>)
    ensures
        exists|from: int| #[trigger] stands_between_spaces(s, trimmed(s), from),
        trimmed(s).len() > 0 ==> !is_white_space(trimmed(s)[0]) && !is_white_space(
            trimmed(s).last(),
        ),
{
    lemma_start_trimmed(s);
    let behind = trimmed_start(s);
    lemma_end_trimmed(behind);
    let from = s.len() - behind.len();
    let inner = trimmed(s);
    assert(s.subrange(from, from + inner.len()) =~= behind.take(inner.len() as int));
    assert(s.skip(from + inner.len()) =~= behind.skip(inner.len() as int));
    assert(stands_between_spaces(s, inner, from));
    if inner.len() > 0 {
        assert(inner[0] == behind[0]);
    }
}

/// Trimming the end of a text takes away the white space there, all of it and nothing else.
pub proof fn law_trimming_the_end(s: Seq<char>)
    ensures
        trimmed_end(s).is_prefix_of(s),
        is_blank(s.skip(trimmed_end(s).len() as int)),
        trimmed_end(s).len() > 0 ==> !is_white_space(trimmed_end(s).last()),
{
    lemma_end_trimmed(s);
}

/// Whether no character of `s` is white space.
pub open spec fn is_solid(s: Seq<char>) -> bool {
    forall|i: int| 0 <= i < s.len() ==> !is_white_space(#[trigger] s[i])
}

proof fn lemma_solid_length(word: Seq<char>, rest: Seq<char>)
    requires
        is_solid(word),
        rest.len() == 0 || is_white_space(rest[0]),
    ensures
        word_length(word + rest) == word.len(),
    decreases word.len(),
{
    let whole = word + rest;
    if word.len() > 0 {
        assert(whole[0] == word[0]);
        let tail = word.drop_first();
        assert forall|i: int| 0 <= i < tail.len() implies !is_white_space(#[trigger] tail[i]) by {
            assert(tail[i] == word[i + 1]);
        }
        lemma_solid_length(tail, rest);
        assert(whole.drop_first() =~= tail + rest);
    } else if rest.len() > 0 {
        assert(whole[0] == rest[0]);
    }
}

/// Words are what stands between white space: white space in front of a text adds none, and a run
/// of other characters up to white space or the end is one.
pub proof fn law_words_stand_between_spaces(word: Seq<char>, rest: Seq<char>)
    requires
        is_solid(word),
        word.len() > 0,
        rest.len() == 0 || is_white_space(rest[0]),
    ensures
        words_of(word + rest) == seq![word] + words_of(rest),
        rest.len() > 0 ==> words_of(rest) == words_of(rest.drop_first()),
        words_of(Seq::empty()) == Seq::<Seq<char>>::empty(),
{
    let whole = word + rest;
    assert(whole[0] == word[0]);
    assert(trimmed_start(whole) == whole);
    lemma_solid_length(word, rest);
    assert(whole.take(word.len() as int) =~= word);
    assert(whole.skip(word.len() as int) =~= rest);
}

/// The first word is the first of the words, and there is none only where there are no words.
pub proof fn law_first_word_is_the_first(s: Seq<char>)
    ensures
        words_of(s).len() == 0 ==> first_word(s).len() == 0,
        words_of(s).len() > 0 ==> first_word(s) == words_of(s)[0] && first_word(s).len() > 0,
        words_of(s).len() == 0 <==> is_blank(s),
{
    lemma_start_trimmed(s);
    lemma_trimmed_start(s);
    lemma_word_length(trimmed_start(s));
    if trimmed_start(s).len() == 0 {
        assert(s.take(s.len() as int) =~= s);
    } else {
        assert(trimmed_start(s)[0] == s[s.len() - trimmed_start(s).len()]);
    }
}

proof fn lemma_line_found(line: Seq<char>, rest: Seq<char>)
    requires
        !line.contains('\n'),
    ensures
        line_length(line) == line.len(),
        line_length(line.push('\n') + rest) == line.len() + 1,
    decreases line.len(),
{
    let whole = line.push('\n') + rest;
    if line.len() > 0 {
        assert(line.contains(line[0]));
        assert(whole[0] == line[0]);
        let tail = line.drop_first();
        assert(!tail.contains('\n')) by {
            if tail.contains('\n') {
                let i = choose|i: int| 0 <= i < tail.len() && tail[i] == '\n';
                assert(line[i + 1] == '\n');
            }
        }
        lemma_line_found(tail, rest);
        assert(whole.drop_first() =~= tail.push('\n') + rest);
    } else {
        assert(whole[0] == '\n');
    }
}

/// Lines end at line feeds. What stands before the first one is a line, without a carriage return
/// directly before the line feed, and the others are those of what stands behind it. A text without
/// a line feed is one line, unless it is empty.
pub proof fn law_lines_end_at_line_feeds(line: Seq<char>, rest: Seq<char>)
    requires
        !line.contains('\n'),
    ensures
        line.len() > 0 ==> lines_of(line) == seq![line] && source_lines(line) == seq![line],
        lines_of(Seq::empty()) == Seq::<Seq<char>>::empty(),
        source_lines(line.push('\n') + rest) == seq![line.push('\n')] + source_lines(rest),
        lines_of(line.push('\n') + rest) == seq![
            if line.len() > 0 && line.last() == '\r' {
                line.drop_last()
            } else {
                line
            },
        ] + lines_of(rest),
{
    lemma_line_found(line, rest);
    let whole = line.push('\n') + rest;
    let size = line.len() + 1;
    lemma_line_length(line);
    lemma_line_length(whole);
    assert(whole.take(size as int) =~= line.push('\n'));
    assert(whole.skip(size as int) =~= rest);
    assert(line.push('\n').drop_last() =~= line);
    if line.len() > 0 {
        assert(line.take(line.len() as int) =~= line);
        assert(source_lines(line.skip(line.len() as int)) =~= Seq::empty());
        assert(source_lines(line) =~= seq![line]);
        assert(line.contains(line.last()));
        assert(lines_of(line) =~= seq![line]);
    }
    assert(lines_of(Seq::empty()) =~= Seq::<Seq<char>>::empty());
    assert(source_lines(whole) =~= seq![line.push('\n')] + source_lines(rest));
    assert(lines_of(whole) =~= seq![line_body(line.push('\n'))] + lines_of(rest));
}

/// In lower case there are no capital letters of ASCII: each stands thirty-two places further on,
/// and all other characters stay.
pub proof fn law_lower_case(s: Seq<char>)
    ensures
        lowered(s).len() == s.len(),
        forall|i: int|
            0 <= i < s.len() ==> {
                let c = s[i];
                let small = #[trigger] lowered(s)[i];
                &&& !('A' <= small <= 'Z')
                &&& 'A' <= c <= 'Z' ==> small as int == c as int + 32
                &&& !('A' <= c <= 'Z') ==> small == c
            },
        lowered(lowered(s)) == lowered(s),
{
    assert(lowered(lowered(s)) =~= lowered(s));
}

} // verus!
