//! The request line: which path a request names.
//!
//! Only the first line of a request is read, and of that line only the second
//! whitespace-delimited token, which is percent-decoded. Headers and body are ignored.

use crate::text::{chars_of, is_whitespace, whitespace};
use vstd::prelude::*;
use vstd::string::StrSliceExecFns;
use vstd::string::StringExecFns;

verus! {

/// The index of the first line feed of `text` at or after `from`, or the length of `text`
/// where there is none.
pub open spec fn line_end(text: Seq<char>, from: int) -> int
    decreases text.len() - from,
{
    if from >= text.len() {
        text.len() as int
    } else if text[from] == '\n' {
        from
    } else {
        line_end(text, from + 1)
    }
}

/// The first line of `text`, without its line feed.
///
/// A carriage return before the line feed stays in the line: it is whitespace, and so never
/// part of a token.
pub open spec fn first_line(text: Seq<char>) -> Seq<char> {
    text.take(line_end(text, 0))
}

/// The index of the first character of `line` at or after `from` that is not whitespace, or
/// the length of `line` where there is none.
pub open spec fn token_start(line: Seq<char>, from: int) -> int
    decreases line.len() - from,
{
    if from >= line.len() {
        line.len() as int
    } else if !is_whitespace(line[from]) {
        from
    } else {
        token_start(line, from + 1)
    }
}

/// The index of the first whitespace character of `line` at or after `from`, or the length of
/// `line` where there is none.
pub open spec fn token_end(line: Seq<char>, from: int) -> int
    decreases line.len() - from,
{
    if from >= line.len() {
        line.len() as int
    } else if is_whitespace(line[from]) {
        from
    } else {
        token_end(line, from + 1)
    }
}

/// Where the second whitespace-delimited token of `line` begins; the length of `line` where
/// it has fewer than two tokens.
pub open spec fn second_token_start(line: Seq<char>) -> int {
    token_start(line, token_end(line, token_start(line, 0)))
}

/// The second whitespace-delimited token of `line`, if it has one.
pub open spec fn second_token(line: Seq<char>) -> Option<Seq<char>> {
    let start = second_token_start(line);
    if start < line.len() {
        Some(line.subrange(start, token_end(line, start)))
    } else {
        None
    }
}

/// The token of a request that names the path, still percent-encoded.
pub open spec fn request_token(text: Seq<char>) -> Option<Seq<char>> {
    second_token(first_line(text))
}

/// What `urlencoding::decode` makes of `data`: the percent-decoded text, or `None` where the
/// decoded bytes are not UTF-8.
pub uninterp spec fn url_decoded(data: Seq<char>) -> Option<Seq<char>>;

/// The decoded path that a request names, if it names a usable one.
pub open spec fn parse_request(text: Seq<char>) -> Option<Seq<char>> {
    match request_token(text) {
        Some(token) => url_decoded(token),
        None => None,
    }
}

/// The path that is served where a request names none.
pub open spec fn default_target() -> Seq<char> {
    "/"@
}

/// The path that a request asks for: the one it names, or the root.
pub open spec fn target_of(path: Option<Seq<char>>) -> Seq<char> {
    match path {
        Some(p) => p,
        None => default_target(),
    }
}

/// Makes the error of `urlencoding::decode`, `std::string::FromUtf8Error`, known as an opaque
/// type.
#[verifier::external_type_specification]
#[verifier::external_body]
pub struct ExFromUtf8Error(std::string::FromUtf8Error);

/// Calls `urlencoding::decode`.
///
/// Trusted: the result is the function's own, `url_decoded` of the input, with the error
/// standing for `None`; and an input without a percent sign comes back unchanged (the crate
/// hands such an input back borrowed before it decodes anything).
#[verifier::external_body]
fn decode(data: &str) -> (res: Result<String, std::string::FromUtf8Error>)
    ensures
        match res {
            Ok(s) => url_decoded(data@) == Some(s@),
            Err(_) => url_decoded(data@) is None,
        },
        !data@.contains('%') ==> res is Ok && res->Ok_0@ == data@,
{
    match urlencoding::decode(data) {
        Ok(s) => Ok(s.into_owned()),
        Err(e) => Err(e),
    }
}

/// The parsed first line of a request.
#[derive(Clone, Debug, PartialEq, Eq)]
pub struct RequestLine {
    /// The decoded path, where the line names one that decodes to text.
    pub path: Option<String>,
}

impl View for RequestLine {
    type V = Option<Seq<char>>;

    open spec fn view(&self) -> Option<Seq<char>> {
        match self.path {
            Some(p) => Some(p@),
            None => None,
        }
    }
}

fn find_line_end(chars: &Vec<char>) -> (end: usize)
    ensures
        end == line_end(chars@, 0),
        end <= chars.len(),
{
    let mut i: usize = 0;
    while i < chars.len() && chars[i] != '\n'
        invariant
            i <= chars.len(),
            line_end(chars@, 0) == line_end(chars@, i as int),
        decreases chars.len() - i,
    {
        i = i + 1;
    }
    i
}

fn find_token_start(chars: &Vec<char>, from: usize, end: usize) -> (i: usize)
    requires
        from <= end <= chars.len(),
    ensures
        i == token_start(chars@.take(end as int), from as int),
        from <= i <= end,
{
    let ghost line = chars@.take(end as int);
    let mut i: usize = from;
    while i < end && whitespace(chars[i])
        invariant
            from <= i <= end <= chars.len(),
            line == chars@.take(end as int),
            token_start(line, from as int) == token_start(line, i as int),
        decreases end - i,
    {
        i = i + 1;
    }
    i
}

fn find_token_end(chars: &Vec<char>, from: usize, end: usize) -> (i: usize)
    requires
        from <= end <= chars.len(),
    ensures
        i == token_end(chars@.take(end as int), from as int),
        from <= i <= end,
{
    let ghost line = chars@.take(end as int);
    let mut i: usize = from;
    while i < end && !whitespace(chars[i])
        invariant
            from <= i <= end <= chars.len(),
            line == chars@.take(end as int),
            token_end(line, from as int) == token_end(line, i as int),
        decreases end - i,
    {
        i = i + 1;
    }
    i
}

/// Finds the token of `request` that names the path: the second whitespace-delimited token
/// of its first line.
pub fn find_request_token(request: &str) -> (token: Option<&str>)
    ensures
        match token {
            Some(t) => request_token(request@) == Some(t@),
            None => request_token(request@) is None,
        },
{
    let chars = chars_of(request);
    let end = find_line_end(&chars);
    let first = find_token_start(&chars, 0, end);
    let gap = find_token_end(&chars, first, end);
    let start = find_token_start(&chars, gap, end);
    if start < end {
        let stop = find_token_end(&chars, start, end);
        Some(request.substring_char(start, stop))
    } else {
        None
    }
}

impl RequestLine {
    /// The request line whose token decoded to `decoded`: it names the decoded path, or none
    /// where the token did not decode to text.
    pub fn from_decoded(decoded: Result<String, std::string::FromUtf8Error>) -> (line: RequestLine)
        ensures
            line@ == match decoded {
                Ok(s) => Some(s@),
                Err(_) => None,
            },
    {
        match decoded {
            Ok(s) => RequestLine { path: Some(s) },
            Err(_) => RequestLine { path: None },
        }
    }

    /// The path to serve: the one the line names, or `/` where it names none.
    pub fn target(self) -> (path: String)
        ensures
            path@ == target_of(self@),
    {
        match self.path {
            Some(p) => p,
            None => String::from_str("/"),
        }
    }
}

/// Parses a request: takes the second whitespace-delimited token of its first line and
/// percent-decodes it. A request without such a token, or whose token does not decode to
/// text, names no path.
pub fn request_parser(request: &str) -> (line: RequestLine)
    ensures
        line@ == parse_request(request@),
        request_token(request@) matches Some(token) ==> (!token.contains('%') ==> line@ == Some(
            token,
        )),
{
    match find_request_token(request) {
        Some(token) => RequestLine::from_decoded(decode(token)),
        None => RequestLine { path: None },
    }
}

/// The line end is where the first line feed stands.
pub proof fn lemma_line_end_found(text: Seq<char>, from: int, end: int)
    requires
        0 <= from <= end <= text.len(),
        forall|i: int| from <= i < end ==> text[i] != '\n',
        end < text.len() ==> text[end] == '\n',
    ensures
        line_end(text, from) == end,
    decreases end - from,
{
    if from < end {
        lemma_line_end_found(text, from + 1, end);
    }
}

/// A token starts where the whitespace ends.
pub proof fn lemma_token_start_found(line: Seq<char>, from: int, start: int)
    requires
        0 <= from <= start <= line.len(),
        forall|i: int| from <= i < start ==> is_whitespace(line[i]),
        start < line.len() ==> !is_whitespace(line[start]),
    ensures
        token_start(line, from) == start,
    decreases start - from,
{
    if from < start {
        lemma_token_start_found(line, from + 1, start);
    }
}

/// A token ends where the whitespace starts.
pub proof fn lemma_token_end_found(line: Seq<char>, from: int, end: int)
    requires
        0 <= from <= end <= line.len(),
        forall|i: int| from <= i < end ==> !is_whitespace(line[i]),
        end < line.len() ==> is_whitespace(line[end]),
    ensures
        token_end(line, from) == end,
    decreases end - from,
{
    if from < end {
        lemma_token_end_found(line, from + 1, end);
    }
}

/// From `from` to the end of the token that starts there, no character is whitespace, and
/// whitespace or the end of the line follows.
pub proof fn lemma_token_end_bounds(line: Seq<char>, from: int)
    requires
        0 <= from <= line.len(),
    ensures
        from <= token_end(line, from) <= line.len(),
        forall|i: int| from <= i < token_end(line, from) ==> !is_whitespace(line[i]),
        token_end(line, from) < line.len() ==> is_whitespace(line[token_end(line, from)]),
    decreases line.len() - from,
{
    if from < line.len() && !is_whitespace(line[from]) {
        lemma_token_end_bounds(line, from + 1);
    }
}

/// From `from` to the start of the next token, every character is whitespace, and a
/// character that is not whitespace, or the end of the line, follows.
pub proof fn lemma_token_start_bounds(line: Seq<char>, from: int)
    requires
        0 <= from <= line.len(),
    ensures
        from <= token_start(line, from) <= line.len(),
        forall|i: int| from <= i < token_start(line, from) ==> is_whitespace(line[i]),
        token_start(line, from) < line.len() ==> !is_whitespace(line[token_start(line, from)]),
    decreases line.len() - from,
{
    if from < line.len() && is_whitespace(line[from]) {
        lemma_token_start_bounds(line, from + 1);
    }
}

/// The token that names the path is not empty and holds no whitespace.
pub proof fn lemma_request_token_is_solid(text: Seq<char>)
    ensures
        request_token(text) matches Some(token) ==> token.len() > 0 && forall|i: int|
            0 <= i < token.len() ==> !is_whitespace(#[trigger] token[i]),
{
    let line = first_line(text);
    lemma_token_start_bounds(line, 0);
    let first = token_start(line, 0);
    lemma_token_end_bounds(line, first);
    let gap = token_end(line, first);
    lemma_token_start_bounds(line, gap);
    let start = token_start(line, gap);
    if start < line.len() {
        lemma_token_end_bounds(line, start);
        let token = line.subrange(start, token_end(line, start));
        assert forall|i: int| 0 <= i < token.len() implies !is_whitespace(#[trigger] token[i]) by {
            assert(token[i] == line[start + i]);
        }
    }
}

/// The request that a client sends for `target`: method, target, version, end of line.
pub open spec fn request_for(target: Seq<char>) -> Seq<char> {
    "GET "@ + target + " HTTP/1.1\r\n"@
}

/// A request for `target` names `target`: where `target` is not empty and holds no
/// whitespace, it is the token that is found, whatever follows the request line.
pub proof fn lemma_request_names_its_target(target: Seq<char>, rest: Seq<char>)
    requires
        target.len() > 0,
        forall|i: int| 0 <= i < target.len() ==> !is_whitespace(target[i]),
    ensures
        request_token(request_for(target) + rest) == Some(target),
{
    reveal_strlit("GET ");
    reveal_strlit(" HTTP/1.1\r\n");
    let text = request_for(target) + rest;
    let n = target.len() as int;
    assert(text.len() == n + 15 + rest.len());
    assert forall|i: int| 0 <= i < 4 implies text[i] == "GET "@[i] by {}
    assert forall|i: int| 4 <= i < 4 + n implies text[i] == target[i - 4] by {}
    assert forall|i: int| 4 + n <= i < 15 + n implies text[i] == " HTTP/1.1\r\n"@[i - 4 - n] by {}
    assert(!is_whitespace('G') && !is_whitespace('E') && !is_whitespace('T'));
    assert(is_whitespace(' ') && is_whitespace('\r') && is_whitespace('\n'));
    assert(!is_whitespace('H') && !is_whitespace('P') && !is_whitespace('/') && !is_whitespace('1')
        && !is_whitespace('.'));
    assert forall|i: int| 0 <= i < 14 + n implies text[i] != '\n' by {
        if 4 <= i < 4 + n {
            assert(!is_whitespace(target[i - 4]));
        }
    }
    lemma_line_end_found(text, 0, 14 + n);
    let line = first_line(text);
    assert(line.len() == 14 + n);
    assert forall|i: int| 0 <= i < 14 + n implies line[i] == text[i] by {}
    lemma_token_start_found(line, 0, 0);
    lemma_token_end_found(line, 0, 3);
    lemma_token_start_found(line, 3, 4);
    assert forall|i: int| 4 <= i < 4 + n implies !is_whitespace(line[i]) by {
        assert(line[i] == target[i - 4]);
    }
    lemma_token_end_found(line, 4, 4 + n);
    assert(line.subrange(4, 4 + n) =~= target);
}

} // verus!
