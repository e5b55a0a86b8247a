//! Texts cut into lines, words and fields, and what is written in them: numbers and bytes.

use vstd::prelude::*;

use crate::text::chars_of;
use crate::text::copy_range;
use crate::text::is_white_space;
use crate::text::text_range;
use crate::text::texts_view;
use crate::text::trimmed_start;
use crate::text::word_length;

verus! {

/// The length of the first line of `s`, its line feed included.
pub open spec fn line_length(s: Seq<char>) -> nat
    decreases s.len(),
{
    if s.len() == 0 {
        0
    } else if s[0] == '\n' {
        1
    } else {
        1 + line_length(s.drop_first())
    }
}

/// The lines of `s`, their line feeds included.
pub open spec fn source_lines(s: Seq<char>) -> Seq<Seq<char>>
    decreases s.len(),
{
    if s.len() == 0 {
        Seq::empty()
    } else {
        proof {
            lemma_line_length(s);
        }
        seq![s.take(line_length(s) as int)] + source_lines(s.skip(line_length(s) as int))
    }
}

/// The first line of a text is part of it, and not empty where the text is not.
pub proof fn lemma_line_length(s: Seq<char>)
    ensures
        line_length(s) <= s.len(),
        s.len() > 0 ==> line_length(s) > 0,
    decreases s.len(),
{
    if s.len() > 0 {
        lemma_line_length(s.drop_first());
    }
}

/// The end of the line that begins at `from`.
fn line_end(chars: &Vec<char>, from: usize) -> (r: usize)
    requires
        from <= chars@.len(),
    ensures
        r == from + line_length(chars@.skip(from as int)),
        r <= chars@.len(),
{
    let mut at = from;
    while at < chars.len()
        invariant
            from <= at <= chars@.len(),
            at - from + line_length(chars@.skip(at as int)) == line_length(
                chars@.skip(from as int),
            ),
        decreases chars@.len() - at,
    {
        assert(chars@.skip(at as int)[0] == chars@[at as int]);
        assert(chars@.skip(at as int).drop_first() =~= chars@.skip(at + 1));
        if chars[at] == '\n' {
            return at + 1;
        }
        at = at + 1;
    }
    at
}

/// The lines of a text, their line feeds included.
pub fn split_source_lines(text: &str) -> (r: Vec<String>)
    ensures
        texts_view(r@) == source_lines(text@),
{
    let chars = chars_of(text);
    let mut lines: Vec<String> = Vec::new();
    let mut start: usize = 0;
    assert(chars@.skip(0) =~= chars@);
    assert(texts_view(lines@) + source_lines(chars@) =~= source_lines(text@));
    while start < chars.len()
        invariant
            start <= chars@.len(),
            texts_view(lines@) + source_lines(chars@.skip(start as int)) == source_lines(text@),
        decreases chars@.len() - start,
    {
        let ghost rest = chars@.skip(start as int);
        proof {
            lemma_line_length(rest);
        }
        let end = line_end(&chars, start);
        let line = text_range(&chars, start, end);
        let ghost before = texts_view(lines@);
        assert(line@ =~= rest.take(end - start));
        assert(rest.skip(end - start) =~= chars@.skip(end as int));
        lines.push(line);
        assert(texts_view(lines@) =~= before.push(line@));
        assert(before.push(line@) + source_lines(chars@.skip(end as int)) =~= before + (
        seq![line@] + source_lines(chars@.skip(end as int))));
        start = end;
    }
    assert(texts_view(lines@) + Seq::<Seq<char>>::empty() =~= texts_view(lines@));
    lines
}

/// A line without its line end.
pub open spec fn line_body(line: Seq<char>) -> Seq<char> {
    if line.len() > 0 && line.last() == '\n' {
        let body = line.drop_last();
        if body.len() > 0 && body.last() == '\r' {
            body.drop_last()
        } else {
            body
        }
    } else {
        line
    }
}

/// The lines of `s` without their line ends: a line feed, or a carriage return with one behind.
pub open spec fn lines_of(s: Seq<char>) -> Seq<Seq<char>> {
    source_lines(s).map_values(|line: Seq<char>| line_body(line))
}

proof fn lemma_first_line(s: Seq<char>)
    ensures
        forall|j: int| 0 <= j < line_length(s) - 1 ==> #[trigger] s[j] != '\n',
    decreases s.len(),
{
    lemma_line_length(s);
    if s.len() > 0 && s[0] != '\n' {
        lemma_first_line(s.drop_first());
        assert forall|j: int| 0 <= j < line_length(s) - 1 implies #[trigger] s[j] != '\n' by {
            if j > 0 {
                assert(s.drop_first()[j - 1] == s[j]);
            }
        }
    }
}

/// Lines without their line ends hold no line feed.
pub proof fn lemma_lines_hold_no_breaks(s: Seq<char>)
    ensures
        forall|i: int, j: int|
            0 <= i < lines_of(s).len() && 0 <= j < lines_of(s)[i].len() ==> #[trigger] lines_of(
                s,
            )[i][j] != '\n',
    decreases s.len(),
{
    if s.len() > 0 {
        let size = line_length(s) as int;
        let rest = s.skip(size);
        lemma_line_length(s);
        lemma_first_line(s);
        lemma_lines_hold_no_breaks(rest);
        let lines = lines_of(s);
        assert(source_lines(s) == seq![s.take(size)] + source_lines(rest));
        assert forall|i: int, j: int|
            0 <= i < lines.len() && 0 <= j < lines[i].len() implies #[trigger] lines[i][j]
            != '\n' by {
            if i == 0 {
                assert(lines[0] == line_body(s.take(size)));
                assert(lines[0][j] == s[j]);
            } else {
                assert(lines[i] == lines_of(rest)[i - 1]);
                assert(lines_of(rest)[i - 1][j] != '\n');
            }
        }
    }
}

/// The lines of a text without their line ends.
pub fn split_lines(text: &str) -> (r: Vec<String>)
    ensures
        texts_view(r@) == lines_of(text@),
{
    let lines = split_source_lines(text);
    let ghost all = lines_of(text@);
    let mut bodies: Vec<String> = Vec::new();
    for i in 0..lines.len()
        invariant
            texts_view(lines@) == source_lines(text@),
            all == lines_of(text@),
            texts_view(bodies@) == all.take(i as int),
    {
        let chars = chars_of(&lines[i]);
        let size = chars.len();
        assert(source_lines(text@)[i as int] == chars@);
        let end = if size > 0 && chars[size - 1] == '\n' {
            if size > 1 && chars[size - 2] == '\r' {
                size - 2
            } else {
                size - 1
            }
        } else {
            size
        };
        let body = text_range(&chars, 0, end);
        assert(body@ =~= line_body(chars@));
        let ghost before = texts_view(bodies@);
        bodies.push(body);
        assert(texts_view(bodies@) =~= before.push(body@));
        assert(before.push(body@) =~= all.take(i + 1));
    }
    assert(all.take(all.len() as int) =~= all);
    bodies
}

/// The runs of characters of `s` that are no white space.
pub open spec fn words_of(s: Seq<char>) -> Seq<Seq<char>>
    decreases s.len(),
{
    let rest = trimmed_start(s);
    if rest.len() == 0 {
        Seq::empty()
    } else {
        proof {
            lemma_trimmed_start(s);
            lemma_word_length(rest);
        }
        seq![rest.take(word_length(rest) as int)] + words_of(rest.skip(word_length(rest) as int))
    }
}

/// What is left of a text without its leading white space is no longer than the text, and begins
/// with something else.
pub proof fn lemma_trimmed_start(s: Seq<char>)
    ensures
        trimmed_start(s).len() <= s.len(),
        trimmed_start(s).len() > 0 ==> !is_white_space(trimmed_start(s)[0]),
    decreases s.len(),
{
    if s.len() > 0 && is_white_space(s[0]) {
        lemma_trimmed_start(s.drop_first());
    }
}

/// A word is part of its text, and not empty where the text begins with no white space.
pub proof fn lemma_word_length(s: Seq<char>)
    ensures
        word_length(s) <= s.len(),
        s.len() > 0 && !is_white_space(s[0]) ==> word_length(s) > 0,
    decreases s.len(),
{
    if s.len() > 0 {
        lemma_word_length(s.drop_first());
    }
}

/// The words of a text: the runs of characters that are no white space.
pub fn split_words(text: &str) -> (r: Vec<String>)
    ensures
        texts_view(r@) == words_of(text@),
{
    let chars = chars_of(text);
    let mut words: Vec<String> = Vec::new();
    let mut at: usize = 0;
    assert(chars@.skip(0) =~= chars@);
    assert(texts_view(words@) + words_of(chars@) =~= words_of(text@));
    while at < chars.len()
        invariant
            at <= chars@.len(),
            texts_view(words@) + words_of(chars@.skip(at as int)) == words_of(text@),
        decreases chars@.len() - at,
    {
        let ghost rest = chars@.skip(at as int);
        assert(rest[0] == chars@[at as int]);
        assert(rest.drop_first() =~= chars@.skip(at + 1));
        if chars[at].is_whitespace() {
            assert(words_of(rest) == words_of(rest.drop_first()));
            at = at + 1;
        } else {
            let mut end = at;
            while end < chars.len() && !chars[end].is_whitespace()
                invariant
                    at <= end <= chars@.len(),
                    rest == chars@.skip(at as int),
                    end - at + word_length(chars@.skip(end as int)) == word_length(rest),
                decreases chars@.len() - end,
            {
                assert(chars@.skip(end as int)[0] == chars@[end as int]);
                assert(chars@.skip(end as int).drop_first() =~= chars@.skip(end + 1));
                end = end + 1;
            }
            assert(word_length(chars@.skip(end as int)) == 0) by {
                if end < chars@.len() {
                    assert(chars@.skip(end as int)[0] == chars@[end as int]);
                }
            }
            proof {
                lemma_word_length(rest);
            }
            let word = text_range(&chars, at, end);
            assert(word@ =~= rest.take(end - at));
            assert(rest.skip(end - at) =~= chars@.skip(end as int));
            let ghost before = texts_view(words@);
            words.push(word);
            assert(texts_view(words@) =~= before.push(word@));
            assert(before.push(word@) + words_of(chars@.skip(end as int)) =~= before + (
            seq![word@] + words_of(chars@.skip(end as int))));
            at = end;
        }
    }
    assert(texts_view(words@) + Seq::<Seq<char>>::empty() =~= texts_view(words@));
    words
}

/// How many characters of `s` stand before its first `c`.
pub open spec fn position_of(s: Seq<char>, c: char) -> nat
    decreases s.len(),
{
    if s.len() == 0 || s[0] == c {
        0
    } else {
        1 + position_of(s.drop_first(), c)
    }
}

/// What stands between the occurrences of `separator` in `s`.
pub open spec fn fields_of(s: Seq<char>, separator: char) -> Seq<Seq<char>>
    decreases s.len(),
{
    let at = position_of(s, separator) as int;
    if at >= s.len() {
        seq![s]
    } else {
        seq![s.take(at)] + fields_of(s.skip(at + 1), separator)
    }
}

/// The models of fields.
pub open spec fn chars_view(fields: Seq<Vec<char>>) -> Seq<Seq<char>> {
    fields.map_values(|field: Vec<char>| field@)
}

/// What stands between the occurrences of `separator`.
pub fn split_fields(chars: &[char], separator: char) -> (r: Vec<Vec<char>>)
    ensures
        chars_view(r@) == fields_of(chars@, separator),
{
    let mut fields: Vec<Vec<char>> = Vec::new();
    let mut start: usize = 0;
    let mut at: usize = 0;
    assert(chars@.skip(0) =~= chars@);
    assert(chars_view(fields@) + fields_of(chars@, separator) =~= fields_of(chars@, separator));
    while at < chars.len()
        invariant
            start <= at <= chars@.len(),
            at - start + position_of(chars@.skip(at as int), separator) == position_of(
                chars@.skip(start as int),
                separator,
            ),
            chars_view(fields@) + fields_of(chars@.skip(start as int), separator) == fields_of(
                chars@,
                separator,
            ),
        decreases chars@.len() - at,
    {
        let ghost rest = chars@.skip(start as int);
        assert(chars@.skip(at as int)[0] == chars@[at as int]);
        assert(chars@.skip(at as int).drop_first() =~= chars@.skip(at + 1));
        if chars[at] == separator {
            let field = copy_range(chars, start, at);
            assert(field@ =~= rest.take(at - start));
            assert(rest.skip(at - start + 1) =~= chars@.skip(at + 1));
            let ghost before = chars_view(fields@);
            fields.push(field);
            assert(chars_view(fields@) =~= before.push(field@));
            assert(before.push(field@) + fields_of(chars@.skip(at + 1), separator) =~= before + (
            seq![field@] + fields_of(chars@.skip(at + 1), separator)));
            start = at + 1;
        }
        at = at + 1;
    }
    let ghost rest = chars@.skip(start as int);
    assert(position_of(chars@.skip(at as int), separator) == 0);
    let field = copy_range(chars, start, at);
    assert(field@ =~= rest);
    let ghost before = chars_view(fields@);
    fields.push(field);
    assert(chars_view(fields@) =~= before + seq![rest]);
    fields
}

/// Whether `c` is a decimal digit.
pub open spec fn is_digit(c: char) -> bool {
    '0' <= c <= '9'
}

/// What the decimal digits `s` stand for.
pub open spec fn number_of(s: Seq<char>) -> nat
    decreases s.len(),
{
    if s.len() == 0 {
        0
    } else {
        number_of(s.drop_last()) * 10 + (s.last() as nat - 48) as nat
    }
}

/// Whether `s` is a number in decimal digits that a `u64` can hold.
pub open spec fn is_number(s: Seq<char>) -> bool {
    &&& s.len() > 0
    &&& forall|i: int| 0 <= i < s.len() ==> is_digit(#[trigger] s[i])
    &&& number_of(s) <= u64::MAX
}

proof fn lemma_number_grows(s: Seq<char>, count: int)
    requires
        0 <= count <= s.len(),
    ensures
        number_of(s.take(count)) <= number_of(s),
    decreases s.len() - count,
{
    if count < s.len() {
        lemma_number_grows(s, count + 1);
        assert(s.take(count + 1).drop_last() =~= s.take(count));
    } else {
        assert(s.take(count) =~= s);
    }
}

/// The number that the text is, where it is one.
pub fn parse_number(chars: &[char]) -> (r: Option<u64>)
    ensures
        match r {
            Some(value) => is_number(chars@) && value == number_of(chars@),
            None => !is_number(chars@),
        },
{
    if chars.len() == 0 {
        return None;
    }
    let mut value: u64 = 0;
    for i in 0..chars.len()
        invariant
            forall|j: int| 0 <= j < i ==> is_digit(#[trigger] chars@[j]),
            value == number_of(chars@.take(i as int)),
    {
        let c = chars[i];
        if c < '0' || c > '9' {
            assert(!is_digit(chars@[i as int]));
            return None;
        }
        let digit = (c as u8 - 48) as u64;
        assert(chars@.take(i + 1).drop_last() =~= chars@.take(i as int));
        proof {
            lemma_number_grows(chars@, i + 1);
        }
        if value > (u64::MAX - digit) / 10 {
            return None;
        }
        value = value * 10 + digit;
    }
    assert(chars@.take(chars@.len() as int) =~= chars@);
    Some(value)
}

/// The hexadecimal digit of `value`, in lower case.
pub open spec fn hex_digit(value: int) -> char {
    if value < 10 {
        (value + 48) as char
    } else {
        (value + 87) as char
    }
}

/// `bytes` in hexadecimal digits, two for each.
pub open spec fn hex_of(bytes: Seq<u8>) -> Seq<char>
    decreases bytes.len(),
{
    if bytes.len() == 0 {
        Seq::empty()
    } else {
        hex_of(bytes.drop_last()).push(hex_digit(bytes.last() as int / 16)).push(
            hex_digit(bytes.last() as int % 16),
        )
    }
}

/// The bytes in hexadecimal digits, two for each.
pub fn hex_text(bytes: &[u8]) -> (r: String)
    ensures
        r@ == hex_of(bytes@),
{
    let mut r = String::new();
    for i in 0..bytes.len()
        invariant
            r@ == hex_of(bytes@.take(i as int)),
    {
        assert(bytes@.take(i + 1).drop_last() =~= bytes@.take(i as int));
        r.push(hex_digit_char(bytes[i] / 16));
        r.push(hex_digit_char(bytes[i] % 16));
    }
    assert(bytes@.take(bytes@.len() as int) =~= bytes@);
    r
}

fn hex_digit_char(value: u8) -> (r: char)
    requires
        value < 16,
    ensures
        r == hex_digit(value as int),
{
    if value < 10 {
        (value + 48) as char
    } else {
        (value + 87) as char
    }
}

/// Bytes take up two digits each.
pub proof fn lemma_hex_length(bytes: Seq<u8>)
    ensures
        hex_of(bytes).len() == 2 * bytes.len(),
    decreases bytes.len(),
{
    if bytes.len() > 0 {
        lemma_hex_length(bytes.drop_last());
    }
}

/// `parts` with `separator` between any two of them.
pub open spec fn joined_with(parts: Seq<Seq<char>>, separator: Seq<char>) -> Seq<char>
    decreases parts.len(),
{
    if parts.len() == 0 {
        Seq::empty()
    } else if parts.len() == 1 {
        parts[0]
    } else {
        joined_with(parts.drop_last(), separator) + separator + parts.last()
    }
}

} // verus!
