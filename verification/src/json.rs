//! The fields that the server picks out of JSON text.
//!
//! Text is searched, not parsed: the first place that looks like the field counts.

use crate::text::chars_of;
use crate::text::contains;
use crate::text::find_from;
use crate::text::first_index;
use crate::text::first_index_from;
use crate::text::is_whitespace;
use crate::text::lemma_contains_first_index;
use crate::text::lemma_first_index_from;
use crate::text::lemma_first_index_is;
use crate::text::lemma_first_index_shifted;
use crate::text::lemma_space_end;
use crate::text::lemma_space_end_is;
use crate::text::occurs_at;
use crate::text::skip_space;
use crate::text::space_end;
use crate::text::string_of;
use vstd::prelude::*;
use vstd::string::*;

verus! {

/// The text between quotation marks.
pub open spec fn quoted(s: Seq<char>) -> Seq<char> {
    seq!['"'] + s + seq!['"']
}

/// The string value of a field: the first place where the key stands in quotation marks, the
/// first colon after it, white space, and a quotation mark; the value runs up to the next
/// quotation mark.
pub open spec fn string_field(body: Seq<char>, key: Seq<char>) -> Option<Seq<char>> {
    match first_index(body, quoted(key)) {
        None => None,
        Some(at) => match first_index_from(body, seq![':'], at + quoted(key).len()) {
            None => None,
            Some(colon) => {
                let open = space_end(body, colon + 1);
                if open < body.len() && body[open] == '"' {
                    match first_index_from(body, seq!['"'], open + 1) {
                        None => None,
                        Some(close) => Some(body.subrange(open + 1, close)),
                    }
                } else {
                    None
                }
            },
        },
    }
}

/// The string value of a field, looked for from the first place on where the key of the object
/// stands in quotation marks.
pub open spec fn nested_string_field(
    body: Seq<char>,
    object: Seq<char>,
    field: Seq<char>,
) -> Option<Seq<char>> {
    match first_index(body, quoted(object)) {
        None => None,
        Some(at) => string_field(body.skip(at), field),
    }
}

/// What follows the first payload key, up to the last character of the text, which has to be an
/// ASCII character; an empty object where there is no such part.
pub open spec fn payload_part(text: Seq<char>) -> Seq<char> {
    match first_index(text, "\"payload\":"@) {
        None => "{}"@,
        Some(at) => {
            let start = at + "\"payload\":"@.len();
            if start < text.len() && text.last() <= '\u{7f}' {
                text.subrange(start, text.len() - 1)
            } else {
                "{}"@
            }
        },
    }
}

fn quote(s: &str) -> (r: Vec<char>)
    ensures
        r@ == quoted(s@),
{
    let inner = chars_of(s);
    let mut r: Vec<char> = Vec::new();
    r.push('"');
    r.extend_from_slice(&inner);
    r.push('"');
    assert(r@ =~= quoted(s@));
    r
}

/// The string value of a field.
pub fn parse_json_string(body: &str, key_name: &str) -> (r: Option<String>)
    ensures
        match r {
            Some(value) => string_field(body@, key_name@) == Some(value@),
            None => string_field(body@, key_name@) is None,
        },
{
    let chars = chars_of(body);
    let len: usize = chars.len();
    let key = quote(key_name);
    let at: usize = match find_from(&chars, &key, 0) {
        Some(at) => at,
        None => return None,
    };
    let colon_text: Vec<char> = vec![':'];
    assert(colon_text@ =~= seq![':']);
    let colon: usize = match find_from(&chars, &colon_text, at + key.len()) {
        Some(colon) => colon,
        None => return None,
    };
    let open: usize = skip_space(&chars, colon + 1);
    if open >= len || chars[open] != '"' {
        return None;
    }
    let mark: Vec<char> = vec!['"'];
    assert(mark@ =~= seq!['"']);
    match find_from(&chars, &mark, open + 1) {
        Some(close) => Some(string_of(&chars, open + 1, close)),
        None => None,
    }
}

/// The string value of a field, looked for from the first place on where the object's key stands.
pub fn parse_nested_json_string(body: &str, object_key: &str, field_key: &str) -> (r: Option<
    String,
>)
    ensures
        match r {
            Some(value) => nested_string_field(body@, object_key@, field_key@) == Some(value@),
            None => nested_string_field(body@, object_key@, field_key@) is None,
        },
{
    let chars = chars_of(body);
    let object = quote(object_key);
    match find_from(&chars, &object, 0) {
        Some(start) => {
            let sliced = body.substring_char(start, chars.len());
            assert(sliced@ =~= body@.skip(start as int));
            parse_json_string(sliced, field_key)
        },
        None => None,
    }
}

/// What follows the first payload key, up to the last character of the text.
pub fn extract_payload<'a>(text: &'a str) -> (r: &'a str)
    ensures
        r@ == payload_part(text@),
{
    let chars = chars_of(text);
    let len: usize = chars.len();
    let key = chars_of("\"payload\":");
    if let Some(at) = find_from(&chars, &key, 0) {
        let start: usize = at + key.len();
        if start < len && chars[len - 1] <= '\u{7f}' {
            return text.substring_char(start, len - 1);
        }
    }
    "{}"
}

/// The object with one string field.
pub open spec fn one_field(key: Seq<char>, value: Seq<char>) -> Seq<char> {
    seq!['{'] + quoted(key) + seq![':'] + quoted(value) + seq!['}']
}

/// A field is found where its key comes first, the colon and the opening quotation mark follow
/// at once, and the next quotation mark ends the value.
proof fn lemma_field_found(body: Seq<char>, key: Seq<char>, value: Seq<char>, at: int, close: int)
    requires
        first_index(body, quoted(key)) == Some(at),
        occurs_at(body, quoted(key), at),
        at + quoted(key).len() + 1 < close < body.len(),
        body[at + quoted(key).len()] == ':',
        body[at + quoted(key).len() + 1] == '"',
        body[close] == '"',
        body.subrange(at + quoted(key).len() + 2, close) == value,
        !value.contains('"'),
    ensures
        string_field(body, key) == Some(value),
{
    let colon = at + quoted(key).len();
    let open = colon + 1;
    assert(body.subrange(colon, colon + 1) =~= seq![':']);
    assert(occurs_at(body, seq![':'], colon));
    assert(!is_whitespace('"'));
    assert(space_end(body, open) == open);
    lemma_first_index_from(body, seq!['"'], open + 1);
    assert(body.subrange(close, close + 1) =~= seq!['"']);
    assert(occurs_at(body, seq!['"'], close));
    assert forall|j: int| open < j < close implies !occurs_at(body, seq!['"'], j) by {
        if occurs_at(body, seq!['"'], j) {
            assert(body.subrange(j, j + 1)[0] == '"');
            assert(value[j - open - 1] == body[j]);
        }
    }
}

/// The object with one string field gives back the value of the field.
pub proof fn law_field_round_trip(key: Seq<char>, value: Seq<char>)
    requires
        !value.contains('"'),
    ensures
        string_field(one_field(key, value), key) == Some(value),
{
    let body = one_field(key, value);
    let close = key.len() + value.len() + 5int;
    assert(body.len() == close + 2);
    assert(body.subrange(1, key.len() + 3int) =~= quoted(key));
    assert(body.subrange(key.len() + 5int, close) =~= value);
    assert(!occurs_at(body, quoted(key), 0)) by {
        if occurs_at(body, quoted(key), 0) {
            assert(body.subrange(0, quoted(key).len() as int)[0] == '"');
        }
    }
    lemma_first_index_is(body, quoted(key), 1);
    lemma_field_found(body, key, value, 1, close);
}

/// The value of a field holds no quotation mark.
pub proof fn law_field_without_quotation_mark(body: Seq<char>, key: Seq<char>)
    ensures
        string_field(body, key) matches Some(value) ==> !value.contains('"'),
{
    if let Some(value) = string_field(body, key) {
        let at = first_index(body, quoted(key))->0;
        lemma_first_index_from(body, quoted(key), 0);
        let colon = first_index_from(body, seq![':'], at + quoted(key).len())->0;
        lemma_first_index_from(body, seq![':'], at + quoted(key).len());
        let open = space_end(body, colon + 1);
        lemma_space_end(body, colon + 1);
        let close = first_index_from(body, seq!['"'], open + 1)->0;
        lemma_first_index_from(body, seq!['"'], open + 1);
        if value.contains('"') {
            let i = choose|i: int| 0 <= i < value.len() && value[i] == '"';
            let j = open + 1 + i;
            assert(body.subrange(j, j + 1) =~= seq!['"']);
            assert(occurs_at(body, seq!['"'], j));
        }
    }
}

/// The payload at the end of an object is given back, where the text before it does not hold the
/// key of a payload.
pub proof fn law_payload_round_trip(before: Seq<char>, payload: Seq<char>)
    requires
        forall|at: int|
            0 <= at < before.len() ==> !occurs_at(
                before + "\"payload\":"@ + payload + seq!['}'],
                "\"payload\":"@,
                at,
            ),
    ensures
        payload_part(before + "\"payload\":"@ + payload + seq!['}']) == payload,
{
    let key = "\"payload\":"@;
    let text = before + key + payload + seq!['}'];
    let at = before.len() as int;
    assert(text.subrange(at, at + key.len()) =~= key);
    lemma_first_index_is(text, key, at);
    assert(text.last() == '}');
    assert(text.subrange(at + key.len(), text.len() - 1) =~= payload);
}

// ---------------------------------------------------------------------------
// What is found
// ---------------------------------------------------------------------------

/// `part` does not stand in `text` at any of the first `n` positions.
pub open spec fn not_before(text: Seq<char>, part: Seq<char>, n: int) -> bool {
    forall|j: int| 0 <= j < n ==> #[trigger] text.subrange(j, j + part.len()) != part
}

/// The key in quotation marks, where it stands first.
proof fn lemma_key_first(before: Seq<char>, key: Seq<char>, rest: Seq<char>)
    requires
        not_before(before + (seq!['"'] + key + seq!['"']) + rest, seq!['"'] + key + seq!['"'],
            before.len() as int),
    ensures
        first_index(before + (seq!['"'] + key + seq!['"']) + rest, quoted(key)) == Some(
            before.len() as int,
        ),
{
    let body = before + (seq!['"'] + key + seq!['"']) + rest;
    let n = before.len() as int;
    assert(body.subrange(n, n + quoted(key).len()) =~= quoted(key));
    assert forall|j: int| 0 <= j < n implies !occurs_at(body, quoted(key), j) by {
        assert(body.subrange(j, j + quoted(key).len()) != quoted(key));
    }
    lemma_first_index_is(body, quoted(key), n);
}

/// The first colon of a text, told from any text that stands before it.
proof fn lemma_colon_behind(front: Seq<char>, middle: Seq<char>, rest: Seq<char>, mark: char)
    requires
        !middle.contains(mark),
    ensures
        first_index_from(front + (middle + seq![mark] + rest), seq![mark], front.len() as int)
            == Some(front.len() as int + middle.len()),
        first_index_from(front + middle, seq![mark], front.len() as int) is None,
{
    let tail = middle + seq![mark] + rest;
    let n = middle.len() as int;
    assert(tail.subrange(n, n + 1) =~= seq![mark]);
    assert forall|j: int| 0 <= j < n implies !occurs_at(tail, seq![mark], j) by {
        if occurs_at(tail, seq![mark], j) {
            assert(tail.subrange(j, j + 1)[0] == mark);
            assert(middle[j] == mark);
        }
    }
    lemma_first_index_is(tail, seq![mark], n);
    lemma_first_index_shifted(front, tail, seq![mark], 0);
    lemma_first_index_shifted(front, middle, seq![mark], 0);
    lemma_first_index_from(middle, seq![mark], 0);
    if let Some(at) = first_index_from(middle, seq![mark], 0) {
        assert(middle.subrange(at, at + 1)[0] == mark);
        assert(middle[at] == mark);
    }
}

/// What a field is: behind the first place of its key in quotation marks, the next colon, any white
/// space and a quotation mark, everything up to the next quotation mark, whatever stands between
/// the key and the colon or behind the value.
#[verifier::rlimit(40)]
pub proof fn law_field_is_found(
    before: Seq<char>,
    key: Seq<char>,
    middle: Seq<char>,
    space: Seq<char>,
    value: Seq<char>,
    rest: Seq<char>,
)
    requires
        !middle.contains(':'),
        forall|i: int| 0 <= i < space.len() ==> is_whitespace(space[i]),
        !value.contains('"'),
        not_before(
            before + (seq!['"'] + key + seq!['"']) + (middle + seq![':'] + (space + seq!['"'] + (
            value + seq!['"'] + rest))),
            seq!['"'] + key + seq!['"'],
            before.len() as int,
        ),
    ensures
        string_field(
            before + (seq!['"'] + key + seq!['"']) + (middle + seq![':'] + (space + seq!['"'] + (
            value + seq!['"'] + rest))),
            key,
        ) == Some(value),
{
    let word = seq!['"'] + key + seq!['"'];
    let last = value + seq!['"'] + rest;
    let after = space + seq!['"'] + last;
    let tail = middle + seq![':'] + after;
    let body = before + word + tail;
    lemma_key_first(before, key, tail);
    let front = before + word;
    lemma_colon_behind(front, middle, after, ':');
    let colon = front.len() + middle.len() as int;
    let open = colon + 1 + space.len();
    assert forall|i: int| colon < i < open implies is_whitespace(body[i]) by {
        assert(body[i] == space[i - colon - 1]);
    }
    assert(body[open] == '"');
    lemma_space_end_is(body, colon + 1, open);
    let lead = front + middle + seq![':'] + space + seq!['"'];
    assert(body =~= lead + last);
    lemma_colon_behind(lead, value, rest, '"');
    let close = open + 1 + value.len();
    assert(body.subrange(open + 1, close) =~= value);
}

/// There is no field where the key does not stand in quotation marks, where no colon follows it,
/// where something other than a quotation mark follows the colon and its white space, or where no
/// second quotation mark follows.
#[verifier::rlimit(40)]
pub proof fn law_field_is_missing(
    before: Seq<char>,
    key: Seq<char>,
    middle: Seq<char>,
    space: Seq<char>,
    rest: Seq<char>,
)
    requires
        !middle.contains(':'),
        forall|i: int| 0 <= i < space.len() ==> is_whitespace(space[i]),
    ensures
        !contains(before, seq!['"'] + key + seq!['"']) ==> string_field(before, key) is None,
        not_before(
            before + (seq!['"'] + key + seq!['"']) + middle,
            seq!['"'] + key + seq!['"'],
            before.len() as int,
        ) ==> string_field(before + (seq!['"'] + key + seq!['"']) + middle, key) is None,
        not_before(
            before + (seq!['"'] + key + seq!['"']) + (middle + seq![':'] + (space + rest)),
            seq!['"'] + key + seq!['"'],
            before.len() as int,
        ) && (rest.len() == 0 || rest[0] != '"' && !is_whitespace(rest[0]) || rest[0] == '"'
            && !rest.skip(1).contains('"')) ==> string_field(
            before + (seq!['"'] + key + seq!['"']) + (middle + seq![':'] + (space + rest)),
            key,
        ) is None,
{
    let word = seq!['"'] + key + seq!['"'];
    let front = before + word;
    if !contains(before, word) {
        lemma_contains_first_index(before, word);
    }
    if not_before(front + middle, word, before.len() as int) {
        lemma_key_first(before, key, middle);
        lemma_colon_behind(front, middle, rest, ':');
    }
    let after = space + rest;
    let tail = middle + seq![':'] + after;
    let body = front + tail;
    if not_before(body, word, before.len() as int) && (rest.len() == 0 || rest[0] != '"'
        && !is_whitespace(rest[0]) || rest[0] == '"' && !rest.skip(1).contains('"')) {
        lemma_key_first(before, key, tail);
        lemma_colon_behind(front, middle, after, ':');
        let colon = front.len() + middle.len() as int;
        let open = colon + 1 + space.len();
        assert forall|i: int| colon < i < open implies is_whitespace(body[i]) by {
            assert(body[i] == space[i - colon - 1]);
        }
        if rest.len() > 0 {
            assert(body[open] == rest[0]);
        }
        lemma_space_end_is(body, colon + 1, open);
        if rest.len() > 0 && rest[0] == '"' {
            let lead = front + middle + seq![':'] + space + seq!['"'];
            assert(body =~= lead + rest.skip(1));
            lemma_colon_behind(lead, rest.skip(1), Seq::<char>::empty(), '"');
        }
    }
}

/// A field of an object is looked for from the first place on where the object's key stands in
/// quotation marks; without such a place there is none.
pub proof fn law_nested_field(
    before: Seq<char>,
    object: Seq<char>,
    rest: Seq<char>,
    field: Seq<char>,
)
    ensures
        not_before(
            before + (seq!['"'] + object + seq!['"']) + rest,
            seq!['"'] + object + seq!['"'],
            before.len() as int,
        ) ==> nested_string_field(
            before + (seq!['"'] + object + seq!['"']) + rest,
            object,
            field,
        ) == string_field((seq!['"'] + object + seq!['"']) + rest, field),
        !contains(before, seq!['"'] + object + seq!['"']) ==> nested_string_field(
            before,
            object,
            field,
        ) is None,
{
    let word = seq!['"'] + object + seq!['"'];
    let body = before + word + rest;
    if not_before(body, word, before.len() as int) {
        lemma_key_first(before, object, rest);
        assert(body.skip(before.len() as int) =~= word + rest);
    }
    if !contains(before, word) {
        lemma_contains_first_index(before, word);
    }
}

/// The payload is all that stands between the first payload key and the last character, where
/// that is an ASCII character; else, and without a key or a character behind it, it is the empty
/// object.
pub proof fn law_payload(before: Seq<char>, payload: Seq<char>, last: char)
    ensures
        not_before(
            before + "\"payload\":"@ + payload + seq![last],
            "\"payload\":"@,
            before.len() as int,
        ) ==> payload_part(before + "\"payload\":"@ + payload + seq![last]) == if last as u32
            <= 127 {
            payload
        } else {
            "{}"@
        },
        not_before(before + "\"payload\":"@, "\"payload\":"@, before.len() as int) ==> payload_part(
            before + "\"payload\":"@,
        ) == "{}"@,
        !contains(before, "\"payload\":"@) ==> payload_part(before) == "{}"@,
{
    let key = "\"payload\":"@;
    let n = before.len() as int;
    let text = before + key + payload + seq![last];
    let short = before + key;
    if not_before(text, key, n) {
        assert(text.subrange(n, n + key.len()) =~= key);
        assert forall|j: int| 0 <= j < n implies !occurs_at(text, key, j) by {
            assert(text.subrange(j, j + key.len()) != key);
        }
        lemma_first_index_is(text, key, n);
        assert(text.last() == last);
        assert(text.subrange(n + key.len(), text.len() - 1) =~= payload);
    }
    if not_before(short, key, n) {
        assert(short.subrange(n, n + key.len()) =~= key);
        assert forall|j: int| 0 <= j < n implies !occurs_at(short, key, j) by {
            assert(short.subrange(j, j + key.len()) != key);
        }
        lemma_first_index_is(short, key, n);
    }
    if !contains(before, key) {
        lemma_contains_first_index(before, key);
    }
}

} // verus!
