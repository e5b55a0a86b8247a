//! JSON values: what they hold, as far as this library reads and writes them.

use serde_json::Error;
use serde_json::Value;
use vstd::prelude::*;

use crate::parts::hex_digit;

verus! {

/// What a JSON value holds. A number is its text.
pub enum Json {
    Null,
    Bool(bool),
    Number(Seq<char>),
    Text(Seq<char>),
    Array(Seq<Json>),
    Object(Map<Seq<char>, Json>),
}

/// A JSON value.
#[verifier::external_type_specification]
#[verifier::external_body]
pub struct ExValue(Value);

/// What is wrong with a JSON text.
#[verifier::external_type_specification]
#[verifier::external_body]
pub struct ExError(Error);

/// What `value` holds.
pub uninterp spec fn json_content(value: Value) -> Json;

/// What `text` says, where it is JSON.
pub uninterp spec fn parsed_json(text: Seq<char>) -> Option<Json>;

/// What `error` says.
pub uninterp spec fn error_text(error: Error) -> Seq<char>;

/// Why `text` is not JSON.
pub uninterp spec fn json_fault(text: Seq<char>) -> Seq<char>;

/// `json` in JSON.
pub uninterp spec fn encoded_json(json: Json) -> Seq<char>;

/// What stands for `c` in a JSON string: quotation marks, backslashes and control characters below
/// the space are escaped.
pub open spec fn escape_of(c: char) -> Seq<char> {
    if c == '"' || c == '\\' {
        seq!['\\', c]
    } else if c == '\u{8}' {
        seq!['\\', 'b']
    } else if c == '\u{c}' {
        seq!['\\', 'f']
    } else if c == '\n' {
        seq!['\\', 'n']
    } else if c == '\r' {
        seq!['\\', 'r']
    } else if c == '\t' {
        seq!['\\', 't']
    } else if c <= '\u{1f}' {
        seq!['\\', 'u', '0', '0', hex_digit(c as int / 16), hex_digit(c as int % 16)]
    } else {
        seq![c]
    }
}

/// What stands for `text` between the quotation marks of a JSON string.
pub open spec fn escaped(text: Seq<char>) -> Seq<char>
    decreases text.len(),
{
    if text.len() == 0 {
        Seq::empty()
    } else {
        escape_of(text[0]) + escaped(text.drop_first())
    }
}

/// `text` as a JSON string.
pub open spec fn quoted(text: Seq<char>) -> Seq<char> {
    seq!['"'] + escaped(text) + seq!['"']
}

/// The value of a hexadecimal digit in lower case.
pub open spec fn hex_value(c: char) -> int {
    if c <= '9' {
        c as int - '0' as int
    } else {
        c as int - 'a' as int + 10
    }
}

/// The character that an escape in a JSON string stands for, where `letter` is the one behind its
/// backslash and `high` and `low` are the last two of the digits that may follow it.
pub open spec fn escape_meaning(letter: char, high: char, low: char) -> char {
    if letter == 'b' {
        '\u{8}'
    } else if letter == 'f' {
        '\u{c}'
    } else if letter == 'n' {
        '\n'
    } else if letter == 'r' {
        '\r'
    } else if letter == 't' {
        '\t'
    } else if letter == 'u' {
        (hex_value(high) * 16 + hex_value(low)) as char
    } else {
        letter
    }
}

/// What `s` stands for between the quotation marks of a JSON string.
pub open spec fn unescaped(s: Seq<char>) -> Seq<char>
    decreases s.len(),
{
    if s.len() == 0 {
        s
    } else if s[0] != '\\' || s.len() == 1 {
        seq![s[0]] + unescaped(s.drop_first())
    } else if s[1] == 'u' && s.len() >= 6 {
        seq![escape_meaning(s[1], s[4], s[5])] + unescaped(s.skip(6))
    } else {
        seq![escape_meaning(s[1], ' ', ' ')] + unescaped(s.skip(2))
    }
}

/// Whether `text` as a JSON string stands for it: what stands between the quotation marks.
pub open spec fn is_read_back(text: Seq<char>) -> bool {
    unescaped(quoted(text).subrange(1, quoted(text).len() - 1)) == text
}

/// A JSON string stands for exactly the text that it was made of.
pub proof fn law_quoted_text_is_read_back(text: Seq<char>)
    ensures
        is_read_back(text),
{
    lemma_unescaped(text);
    assert(quoted(text).subrange(1, quoted(text).len() - 1) =~= escaped(text));
}

proof fn lemma_unescaped(text: Seq<char>)
    ensures
        unescaped(escaped(text)) == text,
    decreases text.len(),
{
    if text.len() > 0 {
        lemma_unescaped(text.drop_first());
        lemma_escape(text[0], escaped(text.drop_first()));
        assert(seq![text[0]] + text.drop_first() =~= text);
    }
}

proof fn lemma_escape(c: char, rest: Seq<char>)
    ensures
        unescaped(escape_of(c) + rest) == seq![c] + unescaped(rest),
{
    let all = escape_of(c) + rest;
    let is_short = c == '"' || c == '\\' || c == '\u{8}' || c == '\u{c}' || c == '\n' || c == '\r'
        || c == '\t';
    if is_short {
        assert(all[0] == '\\' && all[1] == escape_of(c)[1]);
        assert(all.skip(2) =~= rest);
    } else if c <= '\u{1f}' {
        assert(all.skip(6) =~= rest);
        lemma_hex_value(c as int / 16);
        lemma_hex_value(c as int % 16);
        assert(all[4] == hex_digit(c as int / 16) && all[5] == hex_digit(c as int % 16));
    } else {
        assert(all.drop_first() =~= rest);
    }
}

proof fn lemma_hex_value(value: int)
    requires
        0 <= value < 16,
    ensures
        hex_value(hex_digit(value)) == value,
{
}

/// What each of `values` holds.
pub open spec fn contents(values: Seq<Value>) -> Seq<Json> {
    values.map_values(|value: Value| json_content(value))
}

/// The members that `entries` make up: the last one counts where a name occurs twice.
pub open spec fn members_of(entries: Seq<(Seq<char>, Json)>) -> Map<Seq<char>, Json>
    decreases entries.len(),
{
    if entries.len() == 0 {
        Map::empty()
    } else {
        members_of(entries.drop_last()).insert(entries.last().0, entries.last().1)
    }
}

/// What `entries` hold.
pub open spec fn entries_view(entries: Seq<(String, Value)>) -> Seq<(Seq<char>, Json)> {
    entries.map_values(|entry: (String, Value)| (entry.0@, json_content(entry.1)))
}

/// The member of `json` that goes by `name`.
pub open spec fn member_of(json: Json, name: Seq<char>) -> Option<Json> {
    match json {
        Json::Object(members) => if members.contains_key(name) {
            Some(members[name])
        } else {
            None
        },
        _ => None,
    }
}

/// The text that `json` is, where it is one.
pub open spec fn text_of_json(json: Option<Json>) -> Option<Seq<char>> {
    match json {
        Some(Json::Text(text)) => Some(text),
        _ => None,
    }
}

/// `serde_json::from_str`: what the text says, or why it is not JSON.
#[verifier::external_body]
pub(crate) fn parse_json(text: &str) -> (r: Result<Value, Error>)
    ensures
        match r {
            Ok(value) => parsed_json(text@) == Some(json_content(value)),
            Err(error) => parsed_json(text@) is None && error_text(error) == json_fault(text@),
        },
{
    serde_json::from_str(text)
}

/// `serde_json::Error` as text.
#[verifier::external_body]
pub(crate) fn error_message(error: &Error) -> (r: String)
    ensures
        r@ == error_text(*error),
{
    error.to_string()
}

/// `serde_json::to_string` of a value: it in JSON. A value has only texts for the names of its
/// members, so that nothing can go wrong; the members come in the order of their names.
#[verifier::external_body]
pub(crate) fn encode_json(value: &Value) -> (r: Result<String, Error>)
    ensures
        r is Ok,
        r matches Ok(text) ==> text@ == encoded_json(json_content(*value)),
{
    serde_json::to_string(value)
}

/// `serde_json::to_string` of a text: it as a JSON string.
#[verifier::external_body]
pub(crate) fn quote_text(text: &str) -> (r: String)
    ensures
        r@ == quoted(text@),
{
    serde_json::to_string(text).expect("serializing a string cannot fail")
}

/// `Value::as_str`: the text that the value is.
pub assume_specification[ Value::as_str ](value: &Value) -> (r: Option<&str>)
    ensures
        match r {
            Some(text) => json_content(*value) == Json::Text(text@),
            None => json_content(*value) !is Text,
        },
;

/// `Value::as_array`: the values of the array that the value is.
pub assume_specification[ Value::as_array ](value: &Value) -> (r: Option<&Vec<Value>>)
    ensures
        match r {
            Some(items) => json_content(*value) == Json::Array(contents(items@)),
            None => json_content(*value) !is Array,
        },
;

/// `Value::get` with a name: the member of the object that the value is.
#[verifier::external_body]
pub(crate) fn get_member<'a>(value: &'a Value, name: &str) -> (r: Option<&'a Value>)
    ensures
        match r {
            Some(member) => member_of(json_content(*value), name@) == Some(json_content(*member)),
            None => member_of(json_content(*value), name@) is None,
        },
{
    value.get(name)
}

/// `Value::as_object`: how many members the object has that the value is.
#[verifier::external_body]
pub(crate) fn count_members(value: &Value) -> (r: Option<usize>)
    ensures
        r is Some == json_content(*value) is Object,
        r matches Some(count) ==> json_content(*value)->Object_0.dom().finite() && count
            == json_content(*value)->Object_0.dom().len(),
{
    value.as_object().map(|members| members.len())
}

/// `Value::String`: the value that is a text.
#[verifier::external_body]
pub(crate) fn text_value(text: &str) -> (r: Value)
    ensures
        json_content(r) == Json::Text(text@),
{
    Value::String(text.to_owned())
}

/// `Value::Bool`: the value that is true or false.
#[verifier::external_body]
pub(crate) fn bool_value(flag: bool) -> (r: Value)
    ensures
        json_content(r) == Json::Bool(flag),
{
    Value::Bool(flag)
}

/// `Value::Array`: the value that is an array of copies.
#[verifier::external_body]
pub(crate) fn array_value(items: &Vec<Value>) -> (r: Value)
    ensures
        json_content(r) == Json::Array(contents(items@)),
{
    Value::Array(items.clone())
}

/// `Value::Object`: the value that is an object. Where a name occurs twice the last member counts.
#[verifier::external_body]
pub(crate) fn object_value(entries: Vec<(String, Value)>) -> (r: Value)
    ensures
        json_content(r) == Json::Object(members_of(entries_view(entries@))),
{
    Value::Object(entries.into_iter().collect())
}

/// The text of the member of `value` that goes by `name`, where it is one.
pub fn member_text<'a>(value: &'a Value, name: &str) -> (r: Option<&'a str>)
    ensures
        match r {
            Some(text) => text_of_json(member_of(json_content(*value), name@)) == Some(text@),
            None => text_of_json(member_of(json_content(*value), name@)) is None,
        },
{
    match get_member(value, name) {
        Some(member) => member.as_str(),
        None => None,
    }
}

} // verus!
