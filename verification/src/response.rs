//! The responses that go on the wire: status line, two header lines, a blank line, the body.

use crate::text::{decimal, decimal_text, digit};
use vstd::prelude::*;
use vstd::string::StrSliceExecFns;
use vstd::string::StringExecFns;
use vstd::utf8::encode_utf8;

verus! {

/// The size from which a file is streamed in chunks, and the size of a chunk: 1 MiB.
pub const CHUNK_SIZE: usize = 1048576;

/// The bytes that `text` is on the wire.
pub open spec fn wire(text: Seq<char>) -> Seq<u8> {
    encode_utf8(text)
}

/// The first line of a response.
pub open spec fn status_line(code: nat, reason: Seq<char>) -> Seq<char> {
    "HTTP/1.1 "@ + decimal(code) + " "@ + reason + "\r\n"@
}

/// A response with an HTML body: the status line for `code` and `reason`, the content type,
/// the length of `body` in bytes, a blank line, and `body`.
pub open spec fn html_response(code: nat, reason: Seq<char>, body: Seq<char>) -> Seq<char> {
    status_line(code, reason) + "Content-Type: text/html\r\nContent-Length: "@ + decimal(
        wire(body).len(),
    ) + "\r\n\r\n"@ + body
}

/// The body of an error response: a heading that repeats the status.
pub open spec fn error_body(code: nat, reason: Seq<char>) -> Seq<char> {
    "<h1>"@ + decimal(code) + " "@ + reason + "</h1>"@
}

/// The response that reports the error `code`, `reason`.
pub open spec fn error_response(code: nat, reason: Seq<char>) -> Seq<char> {
    html_response(code, reason, error_body(code, reason))
}

/// The response that carries the listing `page`.
pub open spec fn directory_response(page: Seq<char>) -> Seq<char> {
    html_response(200, "OK"@, page)
}

/// What precedes the bytes of a file of `len` bytes: the status line, the content type, the
/// length, a blank line.
pub open spec fn file_header(len: nat) -> Seq<char> {
    status_line(200, "OK"@) + "Content-Type: application/octet-stream\r\nContent-Length: "@
        + decimal(len) + "\r\n\r\n"@
}

/// The response that carries a file with the bytes `contents`.
pub open spec fn file_response(contents: Seq<u8>) -> Seq<u8> {
    wire(file_header(contents.len())) + contents
}

/// How the bytes of a file reach the client.
#[derive(Clone, Copy, Debug, PartialEq, Eq, Structural)]
pub enum Transfer {
    /// The file is read into memory and written in one pass.
    Whole,
    /// The file is read and written chunk by chunk, so that memory stays bounded.
    Chunked,
}

/// The transfer for a file of `len` bytes: whole below 1 MiB, chunked from there on.
pub open spec fn transfer_for(len: u64) -> Transfer {
    if len < CHUNK_SIZE {
        Transfer::Whole
    } else {
        Transfer::Chunked
    }
}

fn status_line_text(status_code: u16, reason: &str) -> (line: String)
    ensures
        line@ == status_line(status_code as nat, reason@),
{
    let code = decimal_text(status_code as u64);
    let mut line = String::from_str("HTTP/1.1 ");
    line.append(code.as_str());
    line.append(" ");
    line.append(reason);
    line.append("\r\n");
    line
}

fn html_response_text(status_code: u16, reason: &str, body: &str) -> (response: String)
    ensures
        response@ == html_response(status_code as nat, reason@, body@),
{
    let length = decimal_text(body.as_bytes().len() as u64);
    let mut response = status_line_text(status_code, reason);
    response.append("Content-Type: text/html\r\nContent-Length: ");
    response.append(length.as_str());
    response.append("\r\n\r\n");
    response.append(body);
    response
}

/// Builds the response that reports an error to the client: status line, headers, and a
/// one-heading body that repeats the status.
pub fn send_error_response(status_code: u16, reason: &str) -> (response: String)
    ensures
        response@ == error_response(status_code as nat, reason@),
{
    let code = decimal_text(status_code as u64);
    let mut body = String::from_str("<h1>");
    body.append(code.as_str());
    body.append(" ");
    body.append(reason);
    body.append("</h1>");
    html_response_text(status_code, reason, body.as_str())
}

/// Builds the response that carries a directory listing.
pub fn send_directory_response(page: &str) -> (response: String)
    ensures
        response@ == directory_response(page@),
{
    html_response_text(200, "OK", page)
}

/// Chooses how a file of `len` bytes is transferred.
pub fn send_files_response(len: u64) -> (transfer: Transfer)
    ensures
        transfer == transfer_for(len),
{
    if len < CHUNK_SIZE as u64 {
        Transfer::Whole
    } else {
        Transfer::Chunked
    }
}

/// Builds what precedes the bytes of a file that is streamed in chunks: the status line and
/// the headers, with `len` as the content length.
pub fn send_large_file_response(len: u64) -> (header: Vec<u8>)
    ensures
        header@ == wire(file_header(len as nat)),
{
    let length = decimal_text(len);
    let mut header = status_line_text(200, "OK");
    header.append("Content-Type: application/octet-stream\r\nContent-Length: ");
    header.append(length.as_str());
    header.append("\r\n\r\n");
    header.as_str().as_bytes_vec()
}

/// Builds the whole response for a file that was read into memory: the header with the
/// number of bytes read as the content length, then the bytes.
pub fn send_small_file_response(contents: Vec<u8>) -> (response: Vec<u8>)
    ensures
        response@ == file_response(contents@),
{
    let mut contents = contents;
    let mut response = send_large_file_response(contents.len() as u64);
    response.append(&mut contents);
    response
}

/// Whether `response` opens with the status line for `code` and `reason`.
pub open spec fn has_status(response: Seq<char>, code: nat, reason: Seq<char>) -> bool {
    status_line(code, reason).is_prefix_of(response)
}

/// A three-digit number is written with three digits, the hundreds first.
pub proof fn lemma_decimal_of_three_digits(n: nat)
    requires
        100 <= n < 1000,
    ensures
        decimal(n) == seq![digit(n / 100), digit((n / 10) % 10), digit(n % 10)],
{
    reveal_with_fuel(decimal, 3);
    assert(decimal(n) =~= seq![digit(n / 100), digit((n / 10) % 10), digit(n % 10)]);
}

/// A response opens with its own status line.
pub proof fn lemma_response_has_its_status(code: nat, reason: Seq<char>, body: Seq<char>)
    ensures
        has_status(html_response(code, reason, body), code, reason),
        has_status(error_response(code, reason), code, reason),
{
    let line = status_line(code, reason);
    assert forall|b: Seq<char>| has_status(#[trigger] html_response(code, reason, b), code, reason) by {
        assert(line =~= html_response(code, reason, b).subrange(0, line.len() as int));
    }
}

/// The header of a file response opens with the status line `200 OK`.
pub proof fn lemma_file_header_has_status_ok(len: nat)
    ensures
        has_status(file_header(len), 200, "OK"@),
{
    let line = status_line(200, "OK"@);
    assert(line =~= file_header(len).subrange(0, line.len() as int));
}

/// Responses with three-digit status codes that differ in the hundreds do not open with
/// each other's status line: a refusal is never taken for a success.
pub proof fn lemma_status_is_told_apart(
    response: Seq<char>,
    code: nat,
    reason: Seq<char>,
    other: nat,
    phrase: Seq<char>,
)
    requires
        has_status(response, code, reason),
        100 <= code < 1000,
        100 <= other < 1000,
        code / 100 != other / 100,
    ensures
        !has_status(response, other, phrase),
{
    reveal_strlit("HTTP/1.1 ");
    lemma_decimal_of_three_digits(code);
    lemma_decimal_of_three_digits(other);
    let mine = status_line(code, reason);
    let theirs = status_line(other, phrase);
    assert(mine[9] == digit(code / 100));
    assert(theirs[9] == digit(other / 100));
    if has_status(response, other, phrase) {
        assert(response.subrange(0, mine.len() as int)[9] == response[9]);
        assert(response.subrange(0, theirs.len() as int)[9] == response[9]);
    }
}

} // verus!
