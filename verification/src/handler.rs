//! From the bytes read off a connection to the text of the response.

use crate::headers::{header_map, parse_headers};
use crate::json::{headers_json, json_text};
use crate::request::{classify, is_ping, request_line_of, RequestKind};
use crate::response::{
    lemma_ok_response_reads_back, not_found_response, not_found_text, ok_response,
    ok_response_headers, ok_response_text,
};
use crate::text::first_line;
use vstd::prelude::*;
use vstd::utf8::{decode_utf8, valid_utf8};

verus! {

/// The number of bytes read off a connection. One read fills the buffer; what
/// a request holds beyond it is never looked at.
pub const REQUEST_BUFFER_SIZE: usize = 1024;

/// The text that `String::from_utf8_lossy` makes of a sequence of bytes, in
/// which U+FFFD stands for what is not UTF-8.
pub uninterp spec fn lossy_text(bytes: Seq<u8>) -> Seq<char>;

/// The response to a request text.
pub open spec fn response_text(request: Seq<char>) -> Seq<char> {
    if is_ping(request) {
        ok_response_text(json_text(header_map(request)))
    } else {
        not_found_text()
    }
}

/// Every `GET /ping` is answered with the status line `HTTP/1.1 200 OK`, with
/// the three headers of a success response, and with the JSON text of its
/// header map as the body.
pub proof fn lemma_ping_is_answered_ok(request: Seq<char>)
    requires
        is_ping(request),
    ensures
        first_line(response_text(request)) == "HTTP/1.1 200 OK"@,
        header_map(response_text(request)) == ok_response_headers(json_text(header_map(request))),
        response_text(request) == ok_response_text(json_text(header_map(request))),
{
    lemma_ok_response_reads_back(json_text(header_map(request)));
}

/// Whatever is not `GET /ping` is answered with the 404: a request with
/// another method, with another path, or with fewer than two tokens in its
/// first line.
pub proof fn lemma_unmatched_is_answered_not_found(request: Seq<char>)
    requires
        match request_line_of(request) {
            Some((method, path)) => method != "GET"@ || path != "/ping"@,
            None => true,
        },
    ensures
        response_text(request) == not_found_text(),
{
}

/// The response to a `GET /ping` depends on the request's header map alone:
/// two such requests with the same headers get the same response, whatever
/// else differs between them.
pub proof fn lemma_same_headers_same_response(first: Seq<char>, second: Seq<char>)
    requires
        is_ping(first),
        is_ping(second),
        header_map(first) == header_map(second),
    ensures
        response_text(first) == response_text(second),
{
}

/// Calls `String::from_utf8_lossy`. Not proved: that the text it returns is
/// the one that `lossy_text` names for the bytes, and that bytes which are
/// UTF-8 come back as the text they encode.
#[verifier::external_body]
fn decode_lossy(bytes: &[u8]) -> (text: String)
    ensures
        text@ == lossy_text(bytes@),
        valid_utf8(bytes@) ==> text@ == decode_utf8(bytes@),
{
    String::from_utf8_lossy(bytes).into_owned()
}

/// Answers a request text: `GET /ping` with its headers as a JSON object,
/// anything else with the 404.
pub fn respond(request: &str) -> (response: String)
    ensures
        response@ == response_text(request@),
{
    match classify(request) {
        RequestKind::Ping => {
            let headers = parse_headers(request);
            let json = headers_json(&headers);
            ok_response(json.as_str())
        },
        RequestKind::Unmatched => not_found_response(),
    }
}

/// Answers the bytes read off a connection. They are decoded as UTF-8, with
/// U+FFFD in place of what is not, so every buffer has a response.
pub fn handle_request(buffer: &[u8]) -> (response: String)
    ensures
        response@ == response_text(lossy_text(buffer@)),
        valid_utf8(buffer@) ==> response@ == response_text(decode_utf8(buffer@)),
{
    let request = decode_lossy(buffer);
    respond(request.as_str())
}

} // verus!
