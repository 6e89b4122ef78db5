//! Text operations, stated over sequences of characters.
//!
//! Every function here works on the characters of a string, so that its contract can be read
//! off the view of its arguments. Positions are counted in characters.

use vstd::prelude::*;
use vstd::utf8::decode_utf8;
use vstd::utf8::encode_utf8;
use vstd::utf8::encode_utf8_decode_utf8;
use vstd::utf8::encode_utf8_valid_utf8;
use vstd::utf8::valid_utf8;

verus! {

/// `String::push` appends one character at the end of the string.
pub assume_specification[ String::push ](s: &mut String, ch: char)
    ensures
        final(s)@ == old(s)@.push(ch),
;

/// What `String::from_utf8_lossy` makes of the bytes.
pub uninterp spec fn lossy_text(bytes: Seq<u8>) -> Seq<char>;

/// `String::from_utf8_lossy` gives the text of bytes that are valid UTF-8, and puts replacement
/// characters in the place of what is not. Its result is named; of the named text the contract
/// says that valid UTF-8 is decoded unchanged. How many replacement characters stand for a run of
/// invalid bytes is not said.
#[verifier::external_body]
pub(crate) fn utf8_lossy(bytes: &[u8]) -> (text: String)
    ensures
        text@ == lossy_text(bytes@),
        valid_utf8(bytes@) ==> text@ == decode_utf8(bytes@),
{
    String::from_utf8_lossy(bytes).into_owned()
}

/// The bytes, where they are valid UTF-8, are read as the text that they encode.
pub open spec fn reads_utf8(bytes: Seq<u8>) -> bool {
    valid_utf8(bytes) ==> lossy_text(bytes) == decode_utf8(bytes)
}

// ---------------------------------------------------------------------------
// Character classes
// ---------------------------------------------------------------------------

/// The characters with the Unicode property `White_Space`.
pub open spec fn is_whitespace(c: char) -> bool {
    ||| '\u{9}' <= c <= '\u{d}'
    ||| c == ' '
    ||| c == '\u{85}'
    ||| c == '\u{a0}'
    ||| c == '\u{1680}'
    ||| '\u{2000}' <= c <= '\u{200a}'
    ||| c == '\u{2028}'
    ||| c == '\u{2029}'
    ||| c == '\u{202f}'
    ||| c == '\u{205f}'
    ||| c == '\u{3000}'
}

/// An ASCII letter or digit.
pub open spec fn is_alphanumeric(c: char) -> bool {
    ||| '0' <= c <= '9'
    ||| 'A' <= c <= 'Z'
    ||| 'a' <= c <= 'z'
}

/// A decimal digit.
pub open spec fn is_digit(c: char) -> bool {
    '0' <= c <= '9'
}

/// The character with ASCII capitals replaced by the small letter.
pub open spec fn lower(c: char) -> char {
    if 'A' <= c <= 'Z' {
        ((c as u8) + 32) as char
    } else {
        c
    }
}

/// Tells whether `c` is white space.
pub fn whitespace(c: char) -> (r: bool)
    ensures
        r == is_whitespace(c),
{
    ('\u{9}' <= c && c <= '\u{d}') || c == ' ' || c == '\u{85}' || c == '\u{a0}' || c == '\u{1680}'
        || ('\u{2000}' <= c && c <= '\u{200a}') || c == '\u{2028}' || c == '\u{2029}' || c
        == '\u{202f}' || c == '\u{205f}' || c == '\u{3000}'
}

// ---------------------------------------------------------------------------
// Strings and their characters
// ---------------------------------------------------------------------------

/// The characters of `s`, in order.
pub fn chars_of(s: &str) -> (chars: Vec<char>)
    ensures
        chars@ == s@,
{
    let mut chars: Vec<char> = Vec::new();
    for c in it: s.chars()
        invariant
            it.seq() == s@,
            chars@ == s@.take(it.index()),
    {
        chars.push(c);
        assert(s@.take(it.index() + 1) =~= s@.take(it.index()).push(c));
    }
    assert(s@.take(s@.len() as int) =~= s@);
    chars
}

/// The string made of the characters `from..to`.
pub fn string_of(chars: &[char], from: usize, to: usize) -> (s: String)
    requires
        from <= to <= chars@.len(),
    ensures
        s@ == chars@.subrange(from as int, to as int),
{
    let mut s = String::new();
    let mut i: usize = from;
    while i < to
        invariant
            from <= i <= to <= chars@.len(),
            s@ == chars@.subrange(from as int, i as int),
        decreases to - i,
    {
        s.push(chars[i]);
        i = i + 1;
        assert(chars@.subrange(from as int, i as int) =~= chars@.subrange(
            from as int,
            i - 1,
        ).push(chars@[i - 1]));
    }
    s
}

/// Tells whether two strings hold the same characters.
pub fn same(a: &str, b: &str) -> (r: bool)
    ensures
        r == (a@ == b@),
{
    let x = a.as_bytes();
    let y = b.as_bytes();
    proof {
        encode_utf8_decode_utf8(a@);
        encode_utf8_decode_utf8(b@);
    }
    if x.len() != y.len() {
        return false;
    }
    let mut i: usize = 0;
    while i < x.len()
        invariant
            i <= x@.len(),
            x@.len() == y@.len(),
            x@ == encode_utf8(a@),
            y@ == encode_utf8(b@),
            forall|k: int| 0 <= k < i ==> x@[k] == y@[k],
        decreases x@.len() - i,
    {
        if x[i] != y[i] {
            return false;
        }
        i = i + 1;
    }
    assert(x@ =~= y@);
    true
}

// ---------------------------------------------------------------------------
// Searching
// ---------------------------------------------------------------------------

/// `needle` stands in `hay` at position `at`.
pub open spec fn occurs_at(hay: Seq<char>, needle: Seq<char>, at: int) -> bool {
    &&& 0 <= at
    &&& at + needle.len() <= hay.len()
    &&& hay.subrange(at, at + needle.len()) == needle
}

/// `needle` stands somewhere in `hay`.
pub open spec fn contains(hay: Seq<char>, needle: Seq<char>) -> bool {
    exists|at: int| occurs_at(hay, needle, at)
}

/// The first position at or after `from` at which `needle` stands in `hay`.
pub open spec fn first_index_from(hay: Seq<char>, needle: Seq<char>, from: int) -> Option<int>
    decreases hay.len() + 1 - from,
{
    if from + needle.len() > hay.len() {
        None
    } else if occurs_at(hay, needle, from) {
        Some(from)
    } else {
        first_index_from(hay, needle, from + 1)
    }
}

/// The first position at which `needle` stands in `hay`.
pub open spec fn first_index(hay: Seq<char>, needle: Seq<char>) -> Option<int> {
    first_index_from(hay, needle, 0)
}

/// `first_index_from` is the least position from `from` on at which the needle stands.
pub proof fn lemma_first_index_from(hay: Seq<char>, needle: Seq<char>, from: int)
    requires
        0 <= from,
    ensures
        match first_index_from(hay, needle, from) {
            Some(at) => {
                &&& from <= at
                &&& occurs_at(hay, needle, at)
                &&& forall|j: int| from <= j < at ==> !occurs_at(hay, needle, j)
            },
            None => forall|j: int| from <= j ==> !occurs_at(hay, needle, j),
        },
    decreases hay.len() + 1 - from,
{
    if from + needle.len() > hay.len() {
    } else if occurs_at(hay, needle, from) {
    } else {
        lemma_first_index_from(hay, needle, from + 1);
    }
}

/// A position at which the needle stands, with none before it, is the first index.
pub proof fn lemma_first_index_is(hay: Seq<char>, needle: Seq<char>, at: int)
    requires
        occurs_at(hay, needle, at),
        forall|j: int| 0 <= j < at ==> !occurs_at(hay, needle, j),
    ensures
        first_index(hay, needle) == Some(at),
        contains(hay, needle),
{
    lemma_first_index_from(hay, needle, 0);
}

/// Text contains a needle just when there is a first position for it.
pub proof fn lemma_contains_first_index(hay: Seq<char>, needle: Seq<char>)
    ensures
        contains(hay, needle) <==> first_index(hay, needle) is Some,
{
    lemma_first_index_from(hay, needle, 0);
}

/// Tells whether `needle` stands in `hay` at `at`.
pub fn occurs(hay: &[char], needle: &[char], at: usize) -> (r: bool)
    requires
        at + needle@.len() <= hay@.len(),
    ensures
        r == occurs_at(hay@, needle@, at as int),
{
    let len: usize = hay.len();
    let mut i: usize = 0;
    while i < needle.len()
        invariant
            i <= needle@.len(),
            len == hay@.len(),
            at + needle@.len() <= hay@.len(),
            forall|k: int| 0 <= k < i ==> hay@[at + k] == needle@[k],
        decreases needle@.len() - i,
    {
        if hay[at + i] != needle[i] {
            assert(hay@.subrange(at as int, at + needle@.len())[i as int] != needle@[i as int]);
            return false;
        }
        i = i + 1;
    }
    assert(hay@.subrange(at as int, at + needle@.len()) =~= needle@);
    true
}

/// The first position from `from` on at which `needle` stands in `hay`.
pub fn find_from(hay: &[char], needle: &[char], from: usize) -> (r: Option<usize>)
    requires
        from <= hay@.len(),
    ensures
        match r {
            Some(at) => first_index_from(hay@, needle@, from as int) == Some(at as int) && from
                <= at && at + needle@.len() <= hay@.len(),
            None => first_index_from(hay@, needle@, from as int) is None,
        },
{
    let mut at: usize = from;
    while at <= hay.len() && needle.len() <= hay.len() - at
        invariant
            from <= at <= hay@.len() + 1,
            first_index_from(hay@, needle@, from as int) == first_index_from(
                hay@,
                needle@,
                at as int,
            ),
        decreases hay@.len() + 1 - at,
    {
        if occurs(hay, needle, at) {
            return Some(at);
        }
        proof {
            // Past the last character only the empty needle fits, and it would have been found.
            if at == hay@.len() {
                assert(hay@.subrange(at as int, at + needle@.len()) =~= needle@);
            }
        }
        at = at + 1;
    }
    None
}

/// Tells whether `needle` stands somewhere in `hay`.
pub fn has_text(hay: &str, needle: &str) -> (r: bool)
    ensures
        r == contains(hay@, needle@),
{
    let h = chars_of(hay);
    let n = chars_of(needle);
    proof {
        lemma_contains_first_index(hay@, needle@);
    }
    find_from(&h, &n, 0).is_some()
}

/// Tells whether `s` starts with `prefix`.
pub fn begins(s: &str, prefix: &str) -> (r: bool)
    ensures
        r == prefix@.is_prefix_of(s@),
{
    let x = chars_of(s);
    let p = chars_of(prefix);
    if p.len() > x.len() {
        return false;
    }
    occurs(&x, &p, 0)
}

/// `s` without the occurrences of `prefix` that stand one after the other at its start.
pub open spec fn without_prefix(s: Seq<char>, prefix: Seq<char>) -> Seq<char>
    decreases s.len(),
{
    if prefix.len() > 0 && prefix.is_prefix_of(s) {
        without_prefix(s.skip(prefix.len() as int), prefix)
    } else {
        s
    }
}

/// `s` without the occurrences of `prefix` that stand one after the other at its start.
pub fn strip_prefix<'a>(s: &'a str, prefix: &str) -> (r: &'a str)
    ensures
        r@ == without_prefix(s@, prefix@),
{
    let chars = chars_of(s);
    let p = chars_of(prefix);
    let len: usize = chars.len();
    let mut from: usize = 0;
    assert(s@.skip(0) =~= s@);
    while p.len() > 0 && p.len() <= len - from && occurs(&chars, &p, from)
        invariant
            from <= len,
            len == chars@.len(),
            chars@ == s@,
            p@ == prefix@,
            without_prefix(s@, prefix@) == without_prefix(s@.skip(from as int), prefix@),
        decreases len - from,
    {
        proof {
            let tail = s@.skip(from as int);
            assert(tail.subrange(0, p@.len() as int) =~= s@.subrange(
                from as int,
                from + p@.len(),
            ));
            assert(tail.skip(p@.len() as int) =~= s@.skip(from + p@.len()));
        }
        from = from + p.len();
    }
    proof {
        let tail = s@.skip(from as int);
        if p@.len() > 0 && p@.is_prefix_of(tail) {
            assert(tail.subrange(0, p@.len() as int) =~= s@.subrange(
                from as int,
                from + p@.len(),
            ));
        }
        assert(s@.subrange(from as int, len as int) =~= tail);
    }
    s.substring_char(from, len)
}

// ---------------------------------------------------------------------------
// White space and words
// ---------------------------------------------------------------------------

/// The first position from `from` on that does not hold white space, or the end.
pub open spec fn space_end(s: Seq<char>, from: int) -> int
    decreases s.len() - from,
{
    if 0 <= from < s.len() && is_whitespace(s[from]) {
        space_end(s, from + 1)
    } else {
        from
    }
}

/// The first position from `from` on that holds white space, or the end.
pub open spec fn word_end(s: Seq<char>, from: int) -> int
    decreases s.len() - from,
{
    if 0 <= from < s.len() && !is_whitespace(s[from]) {
        word_end(s, from + 1)
    } else {
        from
    }
}

/// The end of `s[low..high]` without the white space at its end.
pub open spec fn trimmed_end(s: Seq<char>, low: int, high: int) -> int
    decreases high - low,
{
    if 0 <= low < high <= s.len() && is_whitespace(s[high - 1]) {
        trimmed_end(s, low, high - 1)
    } else {
        high
    }
}

/// `s` without the white space at its two ends.
pub open spec fn trimmed(s: Seq<char>) -> Seq<char> {
    let low = space_end(s, 0);
    s.subrange(low, trimmed_end(s, low, s.len() as int))
}

/// The longest run of characters other than white space that starts at `from`, after the
/// white space that stands there.
pub open spec fn word_from(s: Seq<char>, from: int) -> Seq<char> {
    let start = space_end(s, from);
    s.subrange(start, word_end(s, start))
}

/// Skipping white space stays in range, passes white space only, and stops at something else.
pub proof fn lemma_space_end(s: Seq<char>, from: int)
    requires
        0 <= from <= s.len(),
    ensures
        from <= space_end(s, from) <= s.len(),
        forall|i: int| from <= i < space_end(s, from) ==> is_whitespace(s[i]),
        space_end(s, from) < s.len() ==> !is_whitespace(s[space_end(s, from)]),
    decreases s.len() - from,
{
    if from < s.len() && is_whitespace(s[from]) {
        lemma_space_end(s, from + 1);
    }
}

/// Trimming the end stays in range, drops white space only, and stops at something else.
pub proof fn lemma_trimmed_end(s: Seq<char>, low: int, high: int)
    requires
        0 <= low <= high <= s.len(),
    ensures
        low <= trimmed_end(s, low, high) <= high,
        forall|i: int| trimmed_end(s, low, high) <= i < high ==> is_whitespace(s[i]),
        low < trimmed_end(s, low, high) ==> !is_whitespace(s[trimmed_end(s, low, high) - 1]),
    decreases high - low,
{
    if low < high && is_whitespace(s[high - 1]) {
        lemma_trimmed_end(s, low, high - 1);
    }
}

/// The end of white space is the one position with nothing but white space before it and
/// something else, or the end, at it.
pub proof fn lemma_space_end_is(s: Seq<char>, from: int, end: int)
    requires
        0 <= from <= end <= s.len(),
        forall|i: int| from <= i < end ==> is_whitespace(s[i]),
        end < s.len() ==> !is_whitespace(s[end]),
    ensures
        space_end(s, from) == end,
    decreases end - from,
{
    if from < end {
        lemma_space_end_is(s, from + 1, end);
    }
}

/// The end of a word is the one position with no white space before it and white space, or the
/// end, at it.
pub proof fn lemma_word_end_is(s: Seq<char>, from: int, end: int)
    requires
        0 <= from <= end <= s.len(),
        forall|i: int| from <= i < end ==> !is_whitespace(s[i]),
        end < s.len() ==> is_whitespace(s[end]),
    ensures
        word_end(s, from) == end,
    decreases end - from,
{
    if from < end {
        lemma_word_end_is(s, from + 1, end);
    }
}

/// The trimmed end is the one position with nothing but white space behind it and something else,
/// or the start, before it.
pub proof fn lemma_trimmed_end_is(s: Seq<char>, low: int, high: int, end: int)
    requires
        0 <= low <= end <= high <= s.len(),
        forall|i: int| end <= i < high ==> is_whitespace(s[i]),
        low < end ==> !is_whitespace(s[end - 1]),
    ensures
        trimmed_end(s, low, high) == end,
    decreases high - end,
{
    if end < high {
        lemma_trimmed_end_is(s, low, high - 1, end);
    }
}

/// White space around a text makes no difference once it is trimmed.
pub proof fn law_trim_drops_padding(before: Seq<char>, s: Seq<char>, behind: Seq<char>)
    requires
        forall|i: int| 0 <= i < before.len() ==> is_whitespace(before[i]),
        forall|i: int| 0 <= i < behind.len() ==> is_whitespace(behind[i]),
    ensures
        trimmed(before + s + behind) == trimmed(s),
{
    let all = before + s + behind;
    let n = before.len() as int;
    let low = space_end(s, 0);
    lemma_space_end(s, 0);
    if low == s.len() {
        assert forall|i: int| 0 <= i < all.len() implies is_whitespace(all[i]) by {
            if n <= i < n + s.len() {
                assert(all[i] == s[i - n]);
            }
        }
        lemma_space_end_is(all, 0, all.len() as int);
        lemma_trimmed_end(all, all.len() as int, all.len() as int);
        lemma_trimmed_end(s, low, s.len() as int);
        assert(trimmed(all) =~= trimmed(s));
    } else {
        let high = trimmed_end(s, low, s.len() as int);
        lemma_trimmed_end(s, low, s.len() as int);
        assert(low < high) by {
            if low == high {
                assert(is_whitespace(s[low]));
            }
        }
        assert forall|i: int| 0 <= i < n + low implies is_whitespace(all[i]) by {
            if n <= i {
                assert(all[i] == s[i - n]);
            }
        }
        assert(all[n + low] == s[low]);
        lemma_space_end_is(all, 0, n + low);
        assert forall|i: int| n + high <= i < all.len() implies is_whitespace(all[i]) by {
            if i < n + s.len() {
                assert(all[i] == s[i - n]);
            }
        }
        assert(all[n + high - 1] == s[high - 1]);
        lemma_trimmed_end_is(all, n + low, all.len() as int, n + high);
        assert(trimmed(all) =~= trimmed(s));
    }
}

/// The first position from `from` on that does not hold white space, or the end.
pub fn skip_space(s: &[char], from: usize) -> (r: usize)
    requires
        from <= s@.len(),
    ensures
        r == space_end(s@, from as int),
        from <= r <= s@.len(),
{
    let mut i: usize = from;
    while i < s.len() && whitespace(s[i])
        invariant
            from <= i <= s@.len(),
            space_end(s@, from as int) == space_end(s@, i as int),
        decreases s@.len() - i,
    {
        i = i + 1;
    }
    i
}

/// The first position from `from` on that holds white space, or the end.
pub fn skip_word(s: &[char], from: usize) -> (r: usize)
    requires
        from <= s@.len(),
    ensures
        r == word_end(s@, from as int),
        from <= r <= s@.len(),
{
    let mut i: usize = from;
    while i < s.len() && !whitespace(s[i])
        invariant
            from <= i <= s@.len(),
            word_end(s@, from as int) == word_end(s@, i as int),
        decreases s@.len() - i,
    {
        i = i + 1;
    }
    i
}

/// `s` without the white space at its two ends.
pub fn trim<'a>(s: &'a str) -> (r: &'a str)
    ensures
        r@ == trimmed(s@),
{
    let chars = chars_of(s);
    let low: usize = skip_space(&chars, 0);
    let mut high: usize = chars.len();
    while low < high && whitespace(chars[high - 1])
        invariant
            low <= high <= chars@.len(),
            trimmed_end(chars@, low as int, chars@.len() as int) == trimmed_end(
                chars@,
                low as int,
                high as int,
            ),
        decreases high,
    {
        high = high - 1;
    }
    s.substring_char(low, high)
}

// ---------------------------------------------------------------------------
// Case, filtering and splitting
// ---------------------------------------------------------------------------

/// `s` with every ASCII capital replaced by its small letter.
pub open spec fn lowercased(s: Seq<char>) -> Seq<char> {
    s.map_values(|c: char| lower(c))
}

/// `s` with every ASCII capital replaced by its small letter.
pub fn ascii_lowercase(s: &str) -> (r: String)
    ensures
        r@ == lowercased(s@),
{
    let chars = chars_of(s);
    let mut r = String::new();
    let mut i: usize = 0;
    while i < chars.len()
        invariant
            i <= chars@.len(),
            r@ =~= lowercased(chars@.take(i as int)),
        decreases chars@.len() - i,
    {
        let c: char = chars[i];
        if 'A' <= c && c <= 'Z' {
            r.push((c as u8 + 32) as char);
        } else {
            r.push(c);
        }
        i = i + 1;
        assert(chars@.take(i as int) =~= chars@.take(i - 1).push(c));
    }
    assert(chars@.take(chars@.len() as int) =~= chars@);
    r
}

/// The ASCII letters and digits of `s`, in order.
pub open spec fn alphanumerics(s: Seq<char>) -> Seq<char> {
    s.filter(|c: char| is_alphanumeric(c))
}

/// The ASCII letters and digits of `s`, in order.
pub fn sanitize(s: &str) -> (r: String)
    ensures
        r@ == alphanumerics(s@),
{
    let chars = chars_of(s);
    let mut r = String::new();
    let mut i: usize = 0;
    while i < chars.len()
        invariant
            i <= chars@.len(),
            r@ == alphanumerics(chars@.take(i as int)),
        decreases chars@.len() - i,
    {
        let c: char = chars[i];
        if ('0' <= c && c <= '9') || ('A' <= c && c <= 'Z') || ('a' <= c && c <= 'z') {
            r.push(c);
        }
        i = i + 1;
        proof {
            reveal(Seq::filter);
            assert(chars@.take(i as int).drop_last() =~= chars@.take(i - 1));
        }
    }
    assert(chars@.take(chars@.len() as int) =~= chars@);
    r
}

/// What is left of a text are letters and digits; a text of nothing else stays as it is.
pub proof fn law_sanitized_text(s: Seq<char>)
    ensures
        forall|i: int|
            0 <= i < alphanumerics(s).len() ==> is_alphanumeric(#[trigger] alphanumerics(s)[i]),
        (forall|i: int| 0 <= i < s.len() ==> is_alphanumeric(s[i])) ==> alphanumerics(s) == s,
        alphanumerics(alphanumerics(s)) == alphanumerics(s),
{
    lemma_alphanumerics(s);
    lemma_alphanumerics(alphanumerics(s));
}

proof fn lemma_alphanumerics(s: Seq<char>)
    ensures
        forall|i: int|
            0 <= i < alphanumerics(s).len() ==> is_alphanumeric(#[trigger] alphanumerics(s)[i]),
        (forall|i: int| 0 <= i < s.len() ==> is_alphanumeric(s[i])) ==> alphanumerics(s) == s,
    decreases s.len(),
{
    reveal(Seq::filter);
    if s.len() > 0 {
        let front = s.drop_last();
        lemma_alphanumerics(front);
        assert(front.push(s.last()) =~= s);
        if forall|i: int| 0 <= i < s.len() ==> is_alphanumeric(s[i]) {
            assert forall|i: int| 0 <= i < front.len() implies is_alphanumeric(front[i]) by {
                assert(front[i] == s[i]);
            }
            assert(is_alphanumeric(s[s.len() - 1]));
        }
    }
}

/// The parts of `s` from `from` on, as the separators divide it.
pub open spec fn pieces_from(s: Seq<char>, sep: char, from: int) -> Seq<Seq<char>>
    decreases s.len() - from,
    when 0 <= from
    via pieces_from_decreases
{
    match first_index_from(s, seq![sep], from) {
        Some(at) => seq![s.subrange(from, at)] + pieces_from(s, sep, at + 1),
        None => seq![s.subrange(from, s.len() as int)],
    }
}

#[via_fn]
proof fn pieces_from_decreases(s: Seq<char>, sep: char, from: int) {
    lemma_first_index_from(s, seq![sep], from);
}

/// The parts of `s` between the separators.
pub open spec fn pieces(s: Seq<char>, sep: char) -> Seq<Seq<char>> {
    pieces_from(s, sep, 0)
}

// ---------------------------------------------------------------------------
// Numbers
// ---------------------------------------------------------------------------

/// The digit that stands for `d`.
pub open spec fn digit(d: int) -> char {
    (d + 48) as char
}

/// The number whose decimal digits are `s`.
pub open spec fn digits_value(s: Seq<char>) -> nat
    decreases s.len(),
{
    if s.len() == 0 {
        0
    } else {
        10 * digits_value(s.drop_last()) + (s.last() as nat - 48) as nat
    }
}

/// `s` holds nothing but decimal digits.
pub open spec fn all_digits(s: Seq<char>) -> bool {
    forall|i: int| 0 <= i < s.len() ==> is_digit(s[i])
}

/// `s` without one plus sign at its start.
pub open spec fn unsigned(s: Seq<char>) -> Seq<char> {
    if s.len() > 0 && s[0] == '+' {
        s.skip(1)
    } else {
        s
    }
}

/// The number that `s` writes down: an optional plus sign, then one or more decimal digits, with
/// a value of at most `max`.
pub open spec fn number(s: Seq<char>, max: nat) -> Option<nat> {
    let digits = unsigned(s);
    if digits.len() > 0 && all_digits(digits) && digits_value(digits) <= max {
        Some(digits_value(digits))
    } else {
        None
    }
}

/// The decimal digits of `n`, without leading zeros.
pub open spec fn decimal(n: nat) -> Seq<char>
    decreases n,
{
    if n < 10 {
        seq![digit(n as int)]
    } else {
        decimal(n / 10).push(digit((n % 10) as int))
    }
}

/// The last `width` hexadecimal digits of `n`, in small letters.
pub open spec fn hex(n: nat, width: nat) -> Seq<char>
    decreases width,
{
    if width == 0 {
        Seq::empty()
    } else {
        hex(n / 16, (width - 1) as nat).push(hex_digit((n % 16) as int))
    }
}

/// The hexadecimal digit that stands for `d`.
pub open spec fn hex_digit(d: int) -> char {
    if d < 10 {
        (d + 48) as char
    } else {
        (d + 87) as char
    }
}

/// More digits make a larger number.
proof fn lemma_digits_value_grows(s: Seq<char>, n: int)
    requires
        0 <= n <= s.len(),
    ensures
        digits_value(s.take(n)) <= digits_value(s),
    decreases s.len(),
{
    if n < s.len() {
        assert(s.drop_last().take(n) =~= s.take(n));
        lemma_digits_value_grows(s.drop_last(), n);
    } else {
        assert(s.take(n) =~= s);
    }
}

/// The decimal digits of a number are digits, and give the number.
pub proof fn lemma_decimal_digits(n: nat)
    ensures
        decimal(n).len() > 0,
        all_digits(decimal(n)),
        digits_value(decimal(n)) == n,
    decreases n,
{
    reveal_with_fuel(digits_value, 2);
    if n < 10 {
        assert(decimal(n).drop_last() =~= Seq::<char>::empty());
        assert(decimal(n).last() == digit(n as int));
    } else {
        lemma_decimal_digits(n / 10);
        assert(decimal(n).drop_last() =~= decimal(n / 10));
        assert(decimal(n).last() == digit((n % 10) as int));
    }
}

/// A number that was written in decimal is read back.
pub proof fn law_decimal_round_trip(n: nat, max: nat)
    requires
        n <= max,
    ensures
        number(decimal(n), max) == Some(n),
{
    lemma_decimal_digits(n);
    assert(is_digit(decimal(n)[0]));
}

/// Different numbers are written differently.
pub proof fn law_decimal_injective(m: nat, n: nat)
    requires
        decimal(m) == decimal(n),
    ensures
        m == n,
{
    lemma_decimal_digits(m);
    lemma_decimal_digits(n);
}

/// Small letters stay as they are.
pub proof fn law_lowercase_idempotent(s: Seq<char>)
    ensures
        lowercased(lowercased(s)) == lowercased(s),
{
    assert(lowercased(lowercased(s)) =~= lowercased(s));
}

/// Reads the number that `s[from..to]` writes down.
pub fn parse_number(s: &[char], from: usize, to: usize, max: u64) -> (r: Option<u64>)
    requires
        from <= to <= s@.len(),
    ensures
        match r {
            Some(n) => number(s@.subrange(from as int, to as int), max as nat) == Some(n as nat)
                && n <= max,
            None => number(s@.subrange(from as int, to as int), max as nat) is None,
        },
{
    let ghost whole = s@.subrange(from as int, to as int);
    let start: usize = if from < to && s[from] == '+' {
        from + 1
    } else {
        from
    };
    let ghost digits = s@.subrange(start as int, to as int);
    assert(digits =~= unsigned(whole));
    if start == to {
        return None;
    }
    let mut value: u64 = 0;
    let mut i: usize = start;
    assert(digits.take(0) =~= Seq::<char>::empty());
    while i < to
        invariant
            start <= i <= to <= s@.len(),
            digits == s@.subrange(start as int, to as int),
            value <= max,
            value as nat == digits_value(digits.take(i - start)),
            all_digits(digits.take(i - start)),
            digits == unsigned(whole),
            digits.len() > 0,
            whole == s@.subrange(from as int, to as int),
            from <= to,
        decreases to - i,
    {
        let c: char = s[i];
        let ghost k = i - start;
        assert(digits[k] == c);
        assert(digits.take(k + 1) =~= digits.take(k).push(c));
        if !('0' <= c && c <= '9') {
            return None;
        }
        let d: u8 = c as u8 - 48;
        let next: u128 = value as u128 * 10 + d as u128;
        assert(digits.take(k + 1).drop_last() =~= digits.take(k));
        assert(next as nat == digits_value(digits.take(k + 1)));
        if next > max as u128 {
            proof {
                lemma_digits_value_grows(digits, k + 1);
            }
            return None;
        }
        value = next as u64;
        i = i + 1;
    }
    assert(digits.take(digits.len() as int) =~= digits);
    Some(value)
}

/// Appends the decimal digits of `n`.
pub fn push_decimal(out: &mut String, n: u128)
    ensures
        final(out)@ == old(out)@ + decimal(n as nat),
    decreases n,
{
    if n >= 10 {
        push_decimal(out, n / 10);
    }
    out.push(((n % 10) as u8 + 48) as char);
    assert(n < 10 ==> old(out)@ + decimal(n as nat) =~= old(out)@.push(digit(n as int)));
    assert(n >= 10 ==> old(out)@ + decimal(n as nat) =~= (old(out)@ + decimal(
        (n / 10) as nat,
    )).push(digit((n % 10) as int)));
}

/// Appends the last `width` hexadecimal digits of `n`.
pub fn push_hex(out: &mut String, n: u128, width: u32)
    ensures
        final(out)@ == old(out)@ + hex(n as nat, width as nat),
    decreases width,
{
    if width > 0 {
        push_hex(out, n / 16, width - 1);
        let d: u8 = (n % 16) as u8;
        if d < 10 {
            out.push((d + 48) as char);
        } else {
            out.push((d + 87) as char);
        }
    }
    assert(final(out)@ =~= old(out)@ + hex(n as nat, width as nat));
}

// ---------------------------------------------------------------------------
// What the operations mean
// ---------------------------------------------------------------------------

/// White space are the characters with these numbers, and no others.
pub proof fn law_white_space(c: char)
    ensures
        is_whitespace(c) <==> {
            let n = c as u32;
            9 <= n <= 13 || n == 32 || n == 133 || n == 160 || n == 5760 || 8192 <= n <= 8202 || n
                == 8232 || n == 8233 || n == 8239 || n == 8287 || n == 12288
        },
{
}

/// Digits, letters and capitals are told by their ASCII numbers; a capital and its small letter
/// are 32 apart.
pub proof fn law_ascii(c: char)
    ensures
        is_digit(c) <==> 48 <= c as u32 <= 57,
        is_alphanumeric(c) <==> 48 <= c as u32 <= 57 || 65 <= c as u32 <= 90 || 97 <= c as u32
            <= 122,
        65 <= c as u32 <= 90 ==> lower(c) as u32 == c as u32 + 32,
        !(65 <= c as u32 <= 90) ==> lower(c) == c,
{
}

/// A text contains another just where it can be cut into what stands before it, the other text,
/// and what stands behind it.
pub proof fn law_contains(hay: Seq<char>, needle: Seq<char>)
    ensures
        contains(hay, needle) <==> exists|before: Seq<char>, behind: Seq<char>|
            hay == #[trigger] (before + needle + behind),
{
    if contains(hay, needle) {
        let at = choose|at: int| occurs_at(hay, needle, at);
        assert(hay =~= hay.take(at) + needle + hay.skip(at + needle.len())) by {
            assert forall|i: int| at <= i < at + needle.len() implies hay[i] == needle[i - at] by {
                assert(hay.subrange(at, at + needle.len())[i - at] == hay[i]);
            }
        }
    }
    if exists|before: Seq<char>, behind: Seq<char>| hay == #[trigger] (before + needle + behind) {
        let (before, behind) = choose|before: Seq<char>, behind: Seq<char>|
            hay == #[trigger] (before + needle + behind);
        let at = before.len() as int;
        assert(hay.subrange(at, at + needle.len()) =~= needle);
        assert(occurs_at(hay, needle, at));
    }
}

/// The first position from `from` on holds the text that was looked for, and no position between
/// them does; where there is none, no position from `from` on does.
pub proof fn law_first_position(hay: Seq<char>, needle: Seq<char>, from: int)
    requires
        0 <= from,
    ensures
        match first_index_from(hay, needle, from) {
            Some(at) => {
                &&& from <= at
                &&& at + needle.len() <= hay.len()
                &&& hay.subrange(at, at + needle.len()) == needle
                &&& forall|j: int|
                    from <= j < at ==> #[trigger] hay.subrange(j, j + needle.len()) != needle
            },
            None => forall|j: int|
                from <= j && j + needle.len() <= hay.len() ==> #[trigger] hay.subrange(
                    j,
                    j + needle.len(),
                ) != needle,
        },
        first_index(hay, needle) == first_index_from(hay, needle, 0),
{
    lemma_first_index_from(hay, needle, from);
    match first_index_from(hay, needle, from) {
        Some(at) => {
            assert forall|j: int| from <= j < at implies #[trigger] hay.subrange(
                j,
                j + needle.len(),
            ) != needle by {
                assert(!occurs_at(hay, needle, j));
            }
        },
        None => {
            assert forall|j: int|
                from <= j && j + needle.len() <= hay.len() implies #[trigger] hay.subrange(
                j,
                j + needle.len(),
            ) != needle by {
                assert(!occurs_at(hay, needle, j));
            }
        },
    }
}

/// A prefix is dropped as often as it stands at the start; a text that does not start with it
/// stays as it is.
pub proof fn law_prefix_is_dropped(prefix: Seq<char>, s: Seq<char>)
    requires
        prefix.len() > 0,
    ensures
        without_prefix(prefix + s, prefix) == without_prefix(s, prefix),
        !prefix.is_prefix_of(s) ==> without_prefix(s, prefix) == s,
        without_prefix(s, Seq::<char>::empty()) == s,
{
    assert((prefix + s).take(prefix.len() as int) =~= prefix);
    assert(prefix.is_prefix_of(prefix + s));
    assert((prefix + s).skip(prefix.len() as int) =~= s);
}

/// White space is skipped up to the first other character, and a word up to the first white space,
/// or up to the end.
pub proof fn law_skipping(before: Seq<char>, run: Seq<char>, rest: Seq<char>)
    ensures
        (forall|i: int| 0 <= i < run.len() ==> is_whitespace(run[i])) && (rest.len() > 0
            ==> !is_whitespace(rest[0])) ==> space_end(
            before + run + rest,
            before.len() as int,
        ) == before.len() + run.len(),
        (forall|i: int| 0 <= i < run.len() ==> !is_whitespace(run[i])) && (rest.len() > 0
            ==> is_whitespace(rest[0])) ==> word_end(before + run + rest, before.len() as int)
            == before.len() + run.len(),
{
    let all = before + run + rest;
    let n = before.len() as int;
    let end = n + run.len();
    assert forall|i: int| n <= i < end implies all[i] == run[i - n] by {}
    assert(end < all.len() ==> all[end] == rest[0]);
    if (forall|i: int| 0 <= i < run.len() ==> is_whitespace(run[i])) && (rest.len() > 0
        ==> !is_whitespace(rest[0])) {
        lemma_space_end_is(all, n, end);
    }
    if (forall|i: int| 0 <= i < run.len() ==> !is_whitespace(run[i])) && (rest.len() > 0
        ==> is_whitespace(rest[0])) {
        lemma_word_end_is(all, n, end);
    }
}

/// A text that neither starts nor ends with white space is what is left of it and any white space
/// around it.
pub proof fn law_trimmed(before: Seq<char>, s: Seq<char>, behind: Seq<char>)
    requires
        forall|i: int| 0 <= i < before.len() ==> is_whitespace(before[i]),
        forall|i: int| 0 <= i < behind.len() ==> is_whitespace(behind[i]),
        s.len() > 0 ==> !is_whitespace(s[0]) && !is_whitespace(s[s.len() - 1]),
    ensures
        trimmed(before + s + behind) == s,
{
    law_trim_drops_padding(before, s, behind);
    if s.len() > 0 {
        lemma_space_end_is(s, 0, 0);
        lemma_trimmed_end_is(s, 0, s.len() as int, s.len() as int);
    }
    assert(trimmed(s) =~= s);
}

/// Small letters take the place of capitals, one for one, and all else stays.
pub proof fn law_lowercased(s: Seq<char>)
    ensures
        lowercased(s).len() == s.len(),
        forall|i: int|
            0 <= i < s.len() ==> (#[trigger] lowercased(s)[i]) as u32 == if 65 <= s[i] as u32
                <= 90 {
                (s[i] as u32 + 32) as u32
            } else {
                s[i] as u32
            },
{
}

/// The letters and digits of two texts in a row are those of the first and then those of the
/// second; a single character is kept just where it is one of them.
pub proof fn law_sanitized_by_character(a: Seq<char>, b: Seq<char>, c: char)
    ensures
        alphanumerics(a + b) == alphanumerics(a) + alphanumerics(b),
        alphanumerics(seq![c]) == if 48 <= c as u32 <= 57 || 65 <= c as u32 <= 90 || 97 <= c as u32
            <= 122 {
            seq![c]
        } else {
            Seq::<char>::empty()
        },
        alphanumerics(Seq::<char>::empty()) == Seq::<char>::empty(),
{
    Seq::filter_distributes_over_add(a, b, |c: char| is_alphanumeric(c));
    reveal_with_fuel(Seq::filter, 2);
    assert(seq![c].drop_last() =~= Seq::<char>::empty());
    assert(alphanumerics(Seq::<char>::empty()) =~= Seq::<char>::empty());
}

/// A text without a separator is one piece; a separator ends the first piece, and the pieces of
/// what follows come after it.
pub proof fn law_pieces(first: Seq<char>, sep: char, rest: Seq<char>)
    requires
        !first.contains(sep),
    ensures
        pieces(first, sep) == seq![first],
        pieces(first + seq![sep] + rest, sep) == seq![first] + pieces(rest, sep),
{
    let all = first + seq![sep] + rest;
    let n = first.len() as int;
    lemma_first_index_from(first, seq![sep], 0);
    if let Some(at) = first_index_from(first, seq![sep], 0) {
        assert(first.subrange(at, at + 1)[0] == sep);
        assert(first[at] == sep);
    }
    assert(first.subrange(0, n) =~= first);
    assert(all.subrange(n, n + 1) =~= seq![sep]);
    assert forall|j: int| 0 <= j < n implies !occurs_at(all, seq![sep], j) by {
        if occurs_at(all, seq![sep], j) {
            assert(all.subrange(j, j + 1)[0] == sep);
            assert(first[j] == sep);
        }
    }
    lemma_first_index_is(all, seq![sep], n);
    assert(all.subrange(0, n) =~= first);
    lemma_pieces_shifted(first + seq![sep], rest, sep, 0);
}

/// The pieces of a text do not depend on what stands before it.
proof fn lemma_pieces_shifted(before: Seq<char>, s: Seq<char>, sep: char, from: int)
    requires
        0 <= from <= s.len(),
    ensures
        pieces_from(before + s, sep, before.len() + from) == pieces_from(s, sep, from),
    decreases s.len() - from,
{
    let all = before + s;
    let n = before.len() as int;
    lemma_first_index_shifted(before, s, seq![sep], from);
    lemma_first_index_from(s, seq![sep], from);
    match first_index_from(s, seq![sep], from) {
        Some(at) => {
            assert(all.subrange(n + from, n + at) =~= s.subrange(from, at));
            lemma_pieces_shifted(before, s, sep, at + 1);
        },
        None => {
            assert(all.subrange(n + from, all.len() as int) =~= s.subrange(from, s.len() as int));
        },
    }
}

/// A position does not depend on what stands before the text.
pub proof fn lemma_first_index_shifted(
    before: Seq<char>,
    s: Seq<char>,
    needle: Seq<char>,
    from: int,
)
    requires
        0 <= from,
    ensures
        first_index_from(before + s, needle, before.len() + from) == match first_index_from(
            s,
            needle,
            from,
        ) {
            Some(at) => Some(before.len() + at),
            None => None,
        },
    decreases s.len() + 1 - from,
{
    let all = before + s;
    let n = before.len() as int;
    if from + needle.len() <= s.len() {
        assert(all.subrange(n + from, n + from + needle.len()) =~= s.subrange(
            from,
            from + needle.len(),
        ));
        if !occurs_at(s, needle, from) {
            lemma_first_index_shifted(before, s, needle, from + 1);
        }
    }
}

/// The value of a digit, and of a number with one digit more; a plus sign in front makes no
/// difference, but for one before another sign or before nothing.
pub proof fn law_number_by_digit(s: Seq<char>, c: char, max: nat)
    requires
        48 <= c as u32 <= 57,
    ensures
        number(seq![c], max) == if c as u32 - 48 <= max {
            Some((c as u32 - 48) as nat)
        } else {
            None
        },
        s.len() > 0 && s != seq!['+'] ==> number(s.push(c), max) == match number(s, max) {
            Some(n) => if 10 * n + (c as u32 - 48) <= max {
                Some((10 * n + (c as u32 - 48)) as nat)
            } else {
                None
            },
            None => None,
        },
        number(seq!['+', c], max) == number(seq![c], max),
{
    reveal_with_fuel(digits_value, 2);
    assert(seq![c].drop_last() =~= Seq::<char>::empty());
    assert(all_digits(seq![c]));
    assert(seq!['+', c].skip(1) =~= seq![c]);
    if s.len() > 0 && s != seq!['+'] {
        let d = unsigned(s);
        assert(d.len() > 0) by {
            if d.len() == 0 {
                assert(s =~= seq!['+']);
            }
        }
        assert(unsigned(s.push(c)) =~= d.push(c));
        assert(d.push(c).drop_last() =~= d);
        if all_digits(d) {
            assert(all_digits(d.push(c)));
        } else {
            let i = choose|i: int| 0 <= i < d.len() && !is_digit(d[i]);
            assert(!is_digit(d.push(c)[i]));
        }
    }
}

/// What ends in anything but a digit is not a number; nor is the empty text.
pub proof fn law_no_number(s: Seq<char>, c: char, max: nat)
    requires
        !(48 <= c as u32 <= 57),
    ensures
        number(s.push(c), max) is None,
        number(Seq::<char>::empty(), max) is None,
{
    let t = s.push(c);
    let d = unsigned(t);
    if d.len() > 0 {
        assert(d[d.len() - 1] == c);
    }
}

/// A number is written in decimal digits, without a leading zero but for zero itself.
pub proof fn law_decimal_shape(n: nat)
    ensures
        decimal(n).len() > 0,
        forall|i: int| 0 <= i < decimal(n).len() ==> 48 <= (#[trigger] decimal(n)[i]) as u32 <= 57,
        decimal(n)[0] == '0' ==> n == 0 && decimal(n).len() == 1,
{
    lemma_decimal_digits(n);
    assert forall|i: int| 0 <= i < decimal(n).len() implies 48 <= (#[trigger] decimal(n)[i]) as u32
        <= 57 by {
        assert(is_digit(decimal(n)[i]));
    }
    lemma_no_leading_zero(n);
}

proof fn lemma_no_leading_zero(n: nat)
    ensures
        decimal(n).len() > 0,
        decimal(n)[0] == '0' ==> n == 0 && decimal(n).len() == 1,
    decreases n,
{
    if n >= 10 {
        lemma_no_leading_zero(n / 10);
    }
}

/// The hexadecimal digits of a number, read one by one, give the number back as far as they
/// reach: one digit more stands for 16 times as much and the value of the digit.
pub proof fn law_hex_by_digit(n: nat, d: nat, width: nat)
    requires
        d < 16,
    ensures
        hex(16 * n + d, width + 1) == hex(n, width).push("0123456789abcdef"@[d as int]),
        hex(n, 0) == Seq::<char>::empty(),
{
    reveal_strlit("0123456789abcdef");
    assert((16 * n + d) / 16 == n);
    assert((16 * n + d) % 16 == d);
}

/// Bytes that encode a text are read as that text.
pub proof fn law_utf8_is_read(text: Seq<char>)
    ensures
        reads_utf8(encode_utf8(text)) <==> lossy_text(encode_utf8(text)) == text,
{
    encode_utf8_valid_utf8(text);
    encode_utf8_decode_utf8(text);
}

} // verus!
