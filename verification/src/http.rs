//! HTTP requests and responses.

use crate::map::StringMap;
use crate::text::ascii_lowercase;
use crate::text::begins;
use crate::text::chars_of;
use crate::text::decimal;
use crate::text::find_from;
use crate::text::first_index;
use crate::text::first_index_from;
use crate::text::is_digit;
use crate::text::is_whitespace;
use crate::text::law_decimal_round_trip;
use crate::text::law_trim_drops_padding;
use crate::text::lemma_decimal_digits;
use crate::text::lemma_first_index_from;
use crate::text::lemma_first_index_is;
use crate::text::lemma_space_end_is;
use crate::text::lemma_trimmed_end;
use crate::text::lemma_trimmed_end_is;
use crate::text::lemma_word_end_is;
use crate::text::lowercased;
use crate::text::number;
use crate::text::occurs_at;
use crate::text::parse_number;
use crate::text::push_decimal;
use crate::text::same;
use crate::text::skip_space;
use crate::text::skip_word;
use crate::text::space_end;
use crate::text::trim;
use crate::text::trimmed;
use crate::text::trimmed_end;
use crate::text::word_end;
use crate::text::word_from;
use vstd::prelude::*;
use vstd::string::*;
use vstd::utf8::encode_utf8;

verus! {

/// The headers of a request, by their names in small letters.
pub type Headers = StringMap<String>;

/// A request.
pub struct HttpRequest {
    pub method: String,
    pub path: String,
    pub headers: Headers,
    pub body: Vec<u8>,
}

/// What a request holds.
pub struct RequestView {
    pub method: Seq<char>,
    pub path: Seq<char>,
    pub headers: Map<Seq<char>, Seq<char>>,
    pub body: Seq<u8>,
}

impl View for HttpRequest {
    type V = RequestView;

    open spec fn view(&self) -> RequestView {
        RequestView {
            method: self.method@,
            path: self.path@,
            headers: self.headers@,
            body: self.body@,
        }
    }
}

/// The value of a header.
pub open spec fn header_value(
    headers: Map<Seq<char>, Seq<char>>,
    key: Seq<char>,
) -> Option<Seq<char>> {
    if headers.contains_key(key) {
        Some(headers[key])
    } else {
        None
    }
}

/// The value of a header, or the empty text.
pub open spec fn header_text(headers: Map<Seq<char>, Seq<char>>, key: Seq<char>) -> Seq<char> {
    if headers.contains_key(key) {
        headers[key]
    } else {
        Seq::empty()
    }
}

/// The value of a header of a request.
pub fn header<'a>(request: &'a HttpRequest, key: &str) -> (r: Option<&'a str>)
    ensures
        match r {
            Some(value) => header_value(request@.headers, key@) == Some(value@),
            None => header_value(request@.headers, key@) is None,
        },
{
    header_map(&request.headers, key)
}

/// The value of a header.
pub fn header_map<'a>(headers: &'a Headers, key: &str) -> (r: Option<&'a str>)
    ensures
        match r {
            Some(value) => header_value(headers@, key@) == Some(value@),
            None => header_value(headers@, key@) is None,
        },
{
    match headers.get(key) {
        Some(value) => Some(value.as_str()),
        None => None,
    }
}

/// The value of a header, or the empty text.
pub fn header_or_empty<'a>(headers: &'a Headers, key: &str) -> (r: &'a str)
    ensures
        r@ == header_text(headers@, key@),
{
    match header_map(headers, key) {
        Some(value) => value,
        None => {
            let empty = "";
            proof {
                reveal_strlit("");
                assert(empty@ =~= Seq::<char>::empty());
            }
            empty
        },
    }
}

// ---------------------------------------------------------------------------
// The request line and the header lines
// ---------------------------------------------------------------------------

/// The first word of a request line, or `GET`.
pub open spec fn line_method(line: Seq<char>) -> Seq<char> {
    let word = word_from(line, 0);
    if word.len() > 0 {
        word
    } else {
        "GET"@
    }
}

/// The second word of a request line, or `/`.
pub open spec fn line_path(line: Seq<char>) -> Seq<char> {
    let word = word_from(line, word_end(line, space_end(line, 0)));
    if word.len() > 0 {
        word
    } else {
        "/"@
    }
}

/// The method and the path of a request line.
pub fn parse_request_line<'a>(line: &'a str) -> (r: (&'a str, &'a str))
    ensures
        r.0@ == line_method(line@),
        r.1@ == line_path(line@),
{
    let chars = chars_of(line);
    let from: usize = skip_space(&chars, 0);
    let to: usize = skip_word(&chars, from);
    let second: usize = skip_space(&chars, to);
    let end: usize = skip_word(&chars, second);
    let method = if from < to {
        line.substring_char(from, to)
    } else {
        "GET"
    };
    let path = if second < end {
        line.substring_char(second, end)
    } else {
        "/"
    };
    (method, path)
}

/// A request up to its body.
struct RequestHead {
    method: String,
    path: String,
    headers: Headers,
    content_length: usize,
}

/// What the head of a request holds.
pub struct HeadView {
    pub method: Seq<char>,
    pub path: Seq<char>,
    pub headers: Map<Seq<char>, Seq<char>>,
    pub content_length: nat,
}

impl View for RequestHead {
    type V = HeadView;

    closed spec fn view(&self) -> HeadView {
        HeadView {
            method: self.method@,
            path: self.path@,
            headers: self.headers@,
            content_length: self.content_length as nat,
        }
    }
}

/// The head that a request line opens.
pub open spec fn head_of(line: Seq<char>) -> HeadView {
    HeadView {
        method: line_method(line),
        path: line_path(line),
        headers: Map::empty(),
        content_length: 0,
    }
}

/// A line that ends the head: an empty one, or the end of the input.
pub open spec fn ends_head(line: Seq<char>) -> bool {
    line == "\r\n"@ || line.len() == 0
}

/// The head with one more line: the part before the first colon, trimmed and in small letters,
/// names a header, and the trimmed part after it is the value. A line without a colon is passed
/// over. The length of the body is the number that the last `content-length` gives, or 0 where
/// that is not a number.
pub open spec fn with_line(head: HeadView, line: Seq<char>) -> HeadView {
    match first_index(line, seq![':']) {
        None => head,
        Some(colon) => {
            let key = lowercased(trimmed(line.take(colon)));
            let value = trimmed(line.skip(colon + 1));
            HeadView {
                headers: head.headers.insert(key, value),
                content_length: if key == "content-length"@ {
                    match number(value, usize::MAX as nat) {
                        Some(n) => n,
                        None => 0,
                    }
                } else {
                    head.content_length
                },
                ..head
            }
        },
    }
}

/// What to read next of a request.
pub enum ReadStep {
    /// The next line.
    Line,
    /// The body, of this many bytes.
    Body(usize),
    /// Nothing: the request is not to be answered.
    Refuse,
}

/// A request of which the head is being read, line by line.
pub struct RequestReader {
    head: Option<RequestHead>,
}

impl View for RequestReader {
    type V = Option<HeadView>;

    closed spec fn view(&self) -> Option<HeadView> {
        match self.head {
            Some(head) => Some(head@),
            None => None,
        }
    }
}

/// The head after one more line: the first line that is not blank opens it.
pub open spec fn head_after(head: Option<HeadView>, line: Seq<char>) -> Option<HeadView> {
    match head {
        None => if trimmed(line).len() == 0 {
            None
        } else {
            Some(head_of(line))
        },
        Some(open) => if ends_head(line) {
            Some(open)
        } else {
            Some(with_line(open, line))
        },
    }
}

impl RequestReader {
    /// The reader before the first line.
    pub fn new() -> (r: Self)
        ensures
            r@ is None,
    {
        RequestReader { head: None }
    }

    /// Takes in a line and tells what to read next. A blank first line is refused; the line that
    /// ends the head is followed by the body.
    pub fn take_line(&mut self, line: &str) -> (step: ReadStep)
        ensures
            final(self)@ == head_after(old(self)@, line@),
            match step {
                ReadStep::Line => match old(self)@ {
                    None => trimmed(line@).len() > 0,
                    Some(_) => !ends_head(line@),
                },
                ReadStep::Body(n) => old(self)@ is Some && ends_head(line@) && n as nat == old(
                    self,
                )@->0.content_length,
                ReadStep::Refuse => old(self)@ is None && trimmed(line@).len() == 0,
            },
    {
        let mut open: Option<RequestHead> = None;
        std::mem::swap(&mut self.head, &mut open);
        match open {
            None => match RequestHead::start(line) {
                Some(head) => {
                    self.head = Some(head);
                    ReadStep::Line
                },
                None => ReadStep::Refuse,
            },
            Some(head) => {
                let mut head = head;
                let more = head.take_line(line);
                let length: usize = head.content_length;
                self.head = Some(head);
                if more {
                    ReadStep::Line
                } else {
                    ReadStep::Body(length)
                }
            },
        }
    }

    /// The request with the head that was read and the given body; none before the first line.
    pub fn finish(self, body: Vec<u8>) -> (r: Option<HttpRequest>)
        ensures
            match r {
                Some(request) => self@ is Some && request@ == (RequestView {
                    method: self@->0.method,
                    path: self@->0.path,
                    headers: self@->0.headers,
                    body: body@,
                }),
                None => self@ is None,
            },
    {
        match self.head {
            Some(head) => Some(
                HttpRequest {
                    method: head.method,
                    path: head.path,
                    headers: head.headers,
                    body,
                },
            ),
            None => None,
        }
    }
}

impl RequestHead {
    /// Opens a head with the request line; a blank line opens none.
    fn start(line: &str) -> (r: Option<RequestHead>)
        ensures
            match r {
                Some(head) => trimmed(line@).len() > 0 && head@ == head_of(line@),
                None => trimmed(line@).len() == 0,
            },
    {
        if trim(line).is_empty() {
            return None;
        }
        let (method, path) = parse_request_line(line);
        Some(
            RequestHead {
                method: method.to_owned(),
                path: path.to_owned(),
                headers: StringMap::new(),
                content_length: 0,
            },
        )
    }

    /// Takes in the next line of the head, and tells whether there are lines to follow.
    fn take_line(&mut self, line: &str) -> (more: bool)
        ensures
            more == !ends_head(line@),
            final(self)@ == if ends_head(line@) {
                old(self)@
            } else {
                with_line(old(self)@, line@)
            },
    {
        if same(line, "\r\n") || line.is_empty() {
            return false;
        }
        let chars = chars_of(line);
        let len: usize = chars.len();
        let colon_text: Vec<char> = vec![':'];
        assert(colon_text@ =~= seq![':']);
        if let Some(colon) = find_from(&chars, &colon_text, 0) {
            let name = line.substring_char(0, colon);
            let rest = line.substring_char(colon + 1, len);
            assert(name@ =~= line@.take(colon as int));
            assert(rest@ =~= line@.skip(colon + 1));
            let key = ascii_lowercase(trim(name));
            let value = trim(rest);
            if same(key.as_str(), "content-length") {
                let digits = chars_of(value);
                assert(digits@.subrange(0, digits@.len() as int) =~= value@);
                self.content_length =
                match parse_number(&digits, 0, digits.len(), usize::MAX as u64) {
                    Some(n) => n as usize,
                    None => 0,
                };
            }
            self.headers.insert(key, value.to_owned());
        }
        true
    }
}

/// Tells whether a path opens a WebSocket connection.
pub fn is_websocket_path(path: &str) -> (r: bool)
    ensures
        r == opens_websocket(path@),
{
    same(path, "/xiaozhi/v1/") || begins(path, "/ws/")
}

/// The paths that open a WebSocket connection.
pub open spec fn opens_websocket(path: Seq<char>) -> bool {
    path == "/xiaozhi/v1/"@ || "/ws/"@.is_prefix_of(path)
}

// ---------------------------------------------------------------------------
// Responses
// ---------------------------------------------------------------------------

/// The words for a status.
pub open spec fn reason(status: u16) -> Seq<char> {
    if status == 200 {
        "OK"@
    } else if status == 400 {
        "Bad Request"@
    } else if status == 401 {
        "Unauthorized"@
    } else if status == 404 {
        "Not Found"@
    } else {
        "Internal Server Error"@
    }
}

/// A response with a JSON body. The length is that of the body in UTF-8.
pub open spec fn response(status: u16, body: Seq<char>) -> Seq<char> {
    "HTTP/1.1 "@ + decimal(status as nat) + " "@ + reason(status)
        + "\r\nContent-Type: application/json\r\nContent-Length: "@ + decimal(
        encode_utf8(body).len(),
    ) + "\r\nConnection: close\r\n\r\n"@ + body
}

/// A response with a JSON body.
pub fn http_response(status: u16, body: &str) -> (r: String)
    ensures
        r@ == response(status, body@),
{
    let reason = match status {
        200 => "OK",
        400 => "Bad Request",
        401 => "Unauthorized",
        404 => "Not Found",
        _ => "Internal Server Error",
    };
    let length: usize = body.as_bytes().len();
    let mut r = "HTTP/1.1 ".to_owned();
    push_decimal(&mut r, status as u128);
    r.append(" ");
    r.append(reason);
    r.append("\r\nContent-Type: application/json\r\nContent-Length: ");
    push_decimal(&mut r, length as u128);
    r.append("\r\nConnection: close\r\n\r\n");
    r.append(body);
    r
}

// ---------------------------------------------------------------------------
// Laws
// ---------------------------------------------------------------------------

/// A text without white space.
pub open spec fn is_word(s: Seq<char>) -> bool {
    s.len() > 0 && forall|i: int| 0 <= i < s.len() ==> !is_whitespace(s[i])
}

/// The method and the path that a client puts into a request line are read back.
pub proof fn law_request_line_round_trip(method: Seq<char>, path: Seq<char>, rest: Seq<char>)
    requires
        is_word(method),
        is_word(path),
    ensures
        line_method(method + seq![' '] + path + seq![' '] + rest) == method,
        line_path(method + seq![' '] + path + seq![' '] + rest) == path,
        trimmed(method + seq![' '] + path + seq![' '] + rest).len() > 0,
{
    let line = method + seq![' '] + path + seq![' '] + rest;
    let m = method.len() as int;
    let p = m + 1 + path.len();
    assert forall|i: int| 0 <= i < m implies line[i] == method[i] by {}
    assert(line[m] == ' ');
    assert forall|i: int| m < i < p implies line[i] == path[i - m - 1] by {}
    assert(line[p] == ' ');
    lemma_space_end_is(line, 0, 0);
    lemma_word_end_is(line, 0, m);
    lemma_space_end_is(line, m, m + 1);
    lemma_word_end_is(line, m + 1, p);
    assert(line.subrange(0, m) =~= method);
    assert(line.subrange(m + 1, p) =~= path);
    lemma_trimmed_end(line, 0, line.len() as int);
    if trimmed_end(line, 0, line.len() as int) == 0 {
        assert(is_whitespace(line[0]));
    }
}

/// A header that a client writes as a line is found under its name in small letters, with the
/// value that was written; all other headers stay as they are.
pub proof fn law_header_line_round_trip(head: HeadView, name: Seq<char>, value: Seq<char>)
    requires
        trimmed(name) == name,
        !name.contains(':'),
        trimmed(value) == value,
    ensures
        with_line(head, name + seq![':', ' '] + value + seq!['\r', '\n']).headers
            == head.headers.insert(lowercased(name), value),
        lowercased(name) == "content-length"@ ==> with_line(
            head,
            name + seq![':', ' '] + value + seq!['\r', '\n'],
        ).content_length == (match number(value, usize::MAX as nat) {
            Some(n) => n,
            None => 0,
        }),
        lowercased(name) != "content-length"@ ==> with_line(
            head,
            name + seq![':', ' '] + value + seq!['\r', '\n'],
        ).content_length == head.content_length,
{
    let line = name + seq![':', ' '] + value + seq!['\r', '\n'];
    let colon = name.len() as int;
    assert(line.subrange(colon, colon + 1) =~= seq![':']);
    assert forall|j: int| 0 <= j < colon implies !occurs_at(line, seq![':'], j) by {
        if occurs_at(line, seq![':'], j) {
            assert(line.subrange(j, j + 1)[0] == ':');
            assert(name[j] == ':');
        }
    }
    lemma_first_index_is(line, seq![':'], colon);
    assert(line.take(colon) =~= name);
    assert(line.skip(colon + 1) =~= seq![' '] + value + seq!['\r', '\n']);
    law_trim_drops_padding(seq![' '], value, seq!['\r', '\n']);
}

/// The length that a client announces is the length of the body that is read.
pub proof fn law_content_length_is_read(head: HeadView, n: nat)
    requires
        n <= usize::MAX,
    ensures
        with_line(
            head,
            "Content-Length"@ + seq![':', ' '] + decimal(n) + seq!['\r', '\n'],
        ).content_length == n,
{
    let name = "Content-Length"@;
    reveal_strlit("Content-Length");
    reveal_strlit("content-length");
    assert(lowercased(name) =~= "content-length"@);
    lemma_space_end_is(name, 0, 0);
    lemma_trimmed_end_is(name, 0, name.len() as int, name.len() as int);
    assert(trimmed(name) =~= name);
    law_decimal_round_trip(n, usize::MAX as nat);
    let digits = decimal(n);
    assert(is_digit(digits[0]) && is_digit(digits[digits.len() - 1])) by {
        lemma_decimal_digits(n);
    }
    lemma_space_end_is(digits, 0, 0);
    lemma_trimmed_end_is(digits, 0, digits.len() as int, digits.len() as int);
    assert(trimmed(digits) =~= digits);
    law_header_line_round_trip(head, name, digits);
}

/// The line that writes a header down.
pub open spec fn header_line(name: Seq<char>, value: Seq<char>) -> Seq<char> {
    name + seq![':', ' '] + value + seq!['\r', '\n']
}

/// The lines that write a list of headers down.
pub open spec fn header_lines(headers: Seq<(Seq<char>, Seq<char>)>) -> Seq<Seq<char>> {
    headers.map_values(|header: (Seq<char>, Seq<char>)| header_line(header.0, header.1))
}

/// The headers of a list by their names in small letters, the last one of a name counting.
pub open spec fn header_table(headers: Seq<(Seq<char>, Seq<char>)>) -> Map<Seq<char>, Seq<char>>
    decreases headers.len(),
{
    if headers.len() == 0 {
        Map::empty()
    } else {
        header_table(headers.drop_last()).insert(
            lowercased(headers.last().0),
            headers.last().1,
        )
    }
}

/// The length of the body that the headers announce: the number that `content-length` gives, or 0
/// where there is no such header or it is not a number.
pub open spec fn announced_length(headers: Map<Seq<char>, Seq<char>>) -> nat {
    if headers.contains_key("content-length"@) {
        match number(headers["content-length"@], usize::MAX as nat) {
            Some(n) => n,
            None => 0,
        }
    } else {
        0
    }
}

/// The head after a number of lines, taken in one by one.
pub open spec fn head_after_lines(
    head: Option<HeadView>,
    lines: Seq<Seq<char>>,
) -> Option<HeadView>
    decreases lines.len(),
{
    if lines.len() == 0 {
        head
    } else {
        head_after(head_after_lines(head, lines.drop_last()), lines.last())
    }
}

/// Whatever lines come in, the length of the body is the one that the headers announce.
pub proof fn law_length_is_the_announced_one(lines: Seq<Seq<char>>)
    ensures
        head_after_lines(None, lines) matches Some(head) ==> head.content_length
            == announced_length(head.headers),
    decreases lines.len(),
{
    if lines.len() > 0 {
        law_length_is_the_announced_one(lines.drop_last());
    }
}

/// The request that a client writes line by line is read back: the method, the path, the headers,
/// and the length of the body that the last `content-length` among them announces.
pub proof fn law_request_round_trip(
    method: Seq<char>,
    path: Seq<char>,
    rest: Seq<char>,
    headers: Seq<(Seq<char>, Seq<char>)>,
)
    requires
        is_word(method),
        is_word(path),
        forall|i: int|
            0 <= i < headers.len() ==> trimmed(#[trigger] headers[i].0) == headers[i].0,
        forall|i: int| 0 <= i < headers.len() ==> !(#[trigger] headers[i].0).contains(':'),
        forall|i: int|
            0 <= i < headers.len() ==> trimmed(#[trigger] headers[i].1) == headers[i].1,
    ensures
        ({
            let line = method + seq![' '] + path + seq![' '] + rest;
            head_after_lines(head_after(None, line), header_lines(headers)) matches Some(head)
                && head.method == method && head.path == path && head.headers == header_table(
                headers,
            ) && head.content_length == announced_length(header_table(headers))
        }),
    decreases headers.len(),
{
    law_request_line_round_trip(method, path, rest);
    if headers.len() > 0 {
        let front = headers.drop_last();
        let name = headers.last().0;
        let value = headers.last().1;
        assert forall|i: int| 0 <= i < front.len() implies front[i] == headers[i] by {}
        law_request_round_trip(method, path, rest, front);
        assert(header_lines(headers).drop_last() =~= header_lines(front));
        assert(header_lines(headers).last() == header_line(name, value));
        let line = method + seq![' '] + path + seq![' '] + rest;
        let before = head_after_lines(head_after(None, line), header_lines(front))->0;
        assert(trimmed(headers[headers.len() - 1].0) == name);
        law_header_line_round_trip(before, name, value);
        reveal_strlit("\r\n");
        assert(!ends_head(header_line(name, value)));
    }
}

/// A header that is given twice has the value that comes last.
pub proof fn law_last_header_counts(head: HeadView, first: Seq<char>, second: Seq<char>)
    requires
        first_index(first, seq![':']) is Some,
        first_index(second, seq![':']) is Some,
        lowercased(trimmed(first.take(first_index(first, seq![':'])->0))) == lowercased(
            trimmed(second.take(first_index(second, seq![':'])->0)),
        ),
    ensures
        with_line(with_line(head, first), second).headers == with_line(head, second).headers,
{
    assert(with_line(with_line(head, first), second).headers =~= with_line(head, second).headers);
}

// ---------------------------------------------------------------------------
// What is read and written
// ---------------------------------------------------------------------------

/// A request holds what its fields hold.
pub proof fn law_request_view(request: HttpRequest)
    ensures
        request@.method == request.method@,
        request@.path == request.path@,
        request@.headers == request.headers@,
        request@.body == request.body@,
{
}

/// A header that is there has its value, one that is not there has none, or the empty text.
pub proof fn law_header_lookup(headers: Map<Seq<char>, Seq<char>>, key: Seq<char>)
    ensures
        headers.contains_key(key) ==> header_value(headers, key) == Some(headers[key])
            && header_text(headers, key) == headers[key],
        !headers.contains_key(key) ==> header_value(headers, key) is None && header_text(
            headers,
            key,
        ).len() == 0,
{
}

/// The first word of a line is the method and the second the path, whatever white space stands
/// before, between and behind them; a line of one word has the path `/`, and a blank one the
/// method `GET` besides.
#[verifier::rlimit(40)]
pub proof fn law_request_line(
    space: Seq<char>,
    method: Seq<char>,
    gap: Seq<char>,
    path: Seq<char>,
    rest: Seq<char>,
)
    requires
        forall|i: int| 0 <= i < space.len() ==> is_whitespace(space[i]),
        forall|i: int| 0 <= i < gap.len() ==> is_whitespace(gap[i]),
        method.len() > 0,
        path.len() > 0,
        forall|i: int| 0 <= i < method.len() ==> !is_whitespace(method[i]),
        forall|i: int| 0 <= i < path.len() ==> !is_whitespace(path[i]),
        rest.len() > 0 ==> is_whitespace(rest[0]),
    ensures
        gap.len() > 0 ==> line_method(space + method + gap + path + rest) == method && line_path(
            space + method + gap + path + rest,
        ) == path,
        line_method(space + method + gap) == method,
        line_path(space + method + gap) == "/"@,
        line_method(space) == "GET"@,
        line_path(space) == "/"@,
{
    let a = space.len() as int;
    let b = a + method.len();
    let c = b + gap.len();
    let d = c + path.len();
    if gap.len() > 0 {
        let line = space + method + gap + path + rest;
        assert forall|i: int| 0 <= i < a implies line[i] == space[i] by {}
        assert forall|i: int| a <= i < b implies line[i] == method[i - a] by {}
        assert forall|i: int| b <= i < c implies line[i] == gap[i - b] by {}
        assert forall|i: int| c <= i < d implies line[i] == path[i - c] by {}
        assert(d < line.len() ==> line[d] == rest[0]);
        assert(line[a] == method[0] && line[b] == gap[0] && line[c] == path[0]);
        lemma_space_end_is(line, 0, a);
        lemma_word_end_is(line, a, b);
        lemma_space_end_is(line, b, c);
        lemma_word_end_is(line, c, d);
        assert(line.subrange(a, b) =~= method);
        assert(line.subrange(c, d) =~= path);
    }
    let one = space + method + gap;
    assert forall|i: int| 0 <= i < a implies one[i] == space[i] by {}
    assert forall|i: int| a <= i < b implies one[i] == method[i - a] by {}
    assert forall|i: int| b <= i < c implies one[i] == gap[i - b] by {}
    assert(one[a] == method[0]);
    assert(b < one.len() ==> one[b] == gap[0]);
    lemma_space_end_is(one, 0, a);
    lemma_word_end_is(one, a, b);
    lemma_space_end_is(one, b, c);
    lemma_word_end_is(one, c, c);
    assert(one.subrange(a, b) =~= method);
    lemma_space_end_is(space, 0, a);
    lemma_word_end_is(space, a, a);
}

/// A line with a colon gives the header before the first colon the value behind it, both trimmed
/// and the name in small letters, and leaves all else but the length of the body, which follows
/// `content-length`. A line without a colon changes nothing.
pub proof fn law_header_line(head: HeadView, name: Seq<char>, value: Seq<char>)
    requires
        !name.contains(':'),
    ensures
        ({
            let after = with_line(head, name + seq![':'] + value);
            &&& after.method == head.method
            &&& after.path == head.path
            &&& after.headers == head.headers.insert(lowercased(trimmed(name)), trimmed(value))
            &&& lowercased(trimmed(name)) != "content-length"@ ==> after.content_length
                == head.content_length
            &&& lowercased(trimmed(name)) == "content-length"@ ==> after.content_length == (
            match number(trimmed(value), usize::MAX as nat) {
                Some(n) => n,
                None => 0,
            })
        }),
        with_line(head, name) == head,
{
    let line = name + seq![':'] + value;
    let colon = name.len() as int;
    assert(line.subrange(colon, colon + 1) =~= seq![':']);
    assert forall|j: int| 0 <= j < colon implies !occurs_at(line, seq![':'], j) by {
        if occurs_at(line, seq![':'], j) {
            assert(line.subrange(j, j + 1)[0] == ':');
            assert(name[j] == ':');
        }
    }
    lemma_first_index_is(line, seq![':'], colon);
    assert(line.take(colon) =~= name);
    assert(line.skip(colon + 1) =~= value);
    lemma_first_index_from(name, seq![':'], 0);
    if let Some(at) = first_index_from(name, seq![':'], 0) {
        assert(name.subrange(at, at + 1)[0] == ':');
        assert(name[at] == ':');
    }
}

/// A request is opened by its first line, unless that is blank, with the method and the path of
/// the line, no headers and no body; the lines after it are taken in one by one, up to the line
/// that holds nothing but its end, or the end of the input.
pub proof fn law_head_line_by_line(head: HeadView, line: Seq<char>)
    ensures
        ends_head(line) <==> line == seq!['\r', '\n'] || line.len() == 0,
        trimmed(line).len() == 0 ==> head_after(None, line) is None,
        trimmed(line).len() > 0 ==> (head_after(None, line) matches Some(open) && open.method
            == line_method(line) && open.path == line_path(line) && open.headers == Map::<
            Seq<char>,
            Seq<char>,
        >::empty() && open.content_length == 0),
        head_after(Some(head), line) == if line == seq!['\r', '\n'] || line.len() == 0 {
            Some(head)
        } else {
            Some(with_line(head, line))
        },
{
    reveal_strlit("\r\n");
    assert("\r\n"@ =~= seq!['\r', '\n']);
}

/// WebSocket connections are opened on the common path and on every path under `/ws/`.
pub proof fn law_websocket_paths(path: Seq<char>)
    ensures
        opens_websocket(path) <==> path == "/xiaozhi/v1/"@ || exists|id: Seq<char>|
            path == #[trigger] ("/ws/"@ + id),
{
    let n = "/ws/"@.len() as int;
    if "/ws/"@.is_prefix_of(path) {
        assert(path =~= "/ws/"@ + path.skip(n));
    }
    if exists|id: Seq<char>| path == #[trigger] ("/ws/"@ + id) {
        let id = choose|id: Seq<char>| path == #[trigger] ("/ws/"@ + id);
        assert(path.take(n) =~= "/ws/"@);
    }
}

/// A response is a status line, three header lines and an empty line, and the body; the second
/// header announces the bytes of the body.
#[verifier::rlimit(40)]
pub proof fn law_response(status: u16, body: Seq<char>, words: Seq<char>)
    requires
        words == match status {
            200 => "OK"@,
            400 => "Bad Request"@,
            401 => "Unauthorized"@,
            404 => "Not Found"@,
            _ => "Internal Server Error"@,
        },
    ensures
        response(status, body) == ("HTTP/1.1 "@ + decimal(status as nat) + seq![' '] + words
            + seq!['\r', '\n']) + "Content-Type: application/json\r\n"@ + ("Content-Length"@ + seq![
            ':',
            ' ',
        ] + decimal(encode_utf8(body).len()) + seq!['\r', '\n']) + "Connection: close\r\n"@ + seq![
            '\r',
            '\n',
        ] + body,
{
    let length = decimal(encode_utf8(body).len());
    reveal_strlit(" ");
    reveal_strlit("\r\nContent-Type: application/json\r\nContent-Length: ");
    reveal_strlit("\r\nConnection: close\r\n\r\n");
    reveal_strlit("Content-Type: application/json\r\n");
    reveal_strlit("Content-Length");
    reveal_strlit("Connection: close\r\n");
    assert(" "@ =~= seq![' ']);
    assert("\r\nContent-Type: application/json\r\nContent-Length: "@ =~= seq!['\r', '\n']
        + "Content-Type: application/json\r\n"@ + "Content-Length"@ + seq![':', ' ']);
    assert("\r\nConnection: close\r\n\r\n"@ =~= seq!['\r', '\n'] + "Connection: close\r\n"@
        + seq!['\r', '\n']);
    let line = "Content-Length"@ + seq![':', ' '] + length + seq!['\r', '\n'];
    assert(response(status, body) =~= ("HTTP/1.1 "@ + decimal(status as nat) + seq![' '] + words
        + seq!['\r', '\n']) + "Content-Type: application/json\r\n"@ + line
        + "Connection: close\r\n"@ + seq!['\r', '\n'] + body);
}

} // verus!
