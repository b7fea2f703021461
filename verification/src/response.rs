//! The two responses: their text, and the decimal number in `Content-Length`.

use crate::headers::{
    header_block, header_map, lemma_collect_headers_push, lemma_header_line_round_trip,
};
use crate::text::{first_line, lemma_index_of_first, lemma_lines_of_crlf, lines_of};
use vstd::prelude::*;
use vstd::utf8::encode_utf8;

verus! {

/// The character of the decimal digit `d`.
pub open spec fn digit_char(d: nat) -> char {
    ('0' as u32 + d) as char
}

/// The decimal digits of `n`, most significant first, without leading zeros.
pub open spec fn decimal_digits(n: nat) -> Seq<char>
    decreases n,
{
    if n < 10 {
        seq![digit_char(n)]
    } else {
        decimal_digits(n / 10).push(digit_char(n % 10))
    }
}

/// The number that a sequence of decimal digits denotes.
pub open spec fn decimal_value(digits: Seq<char>) -> nat
    decreases digits.len(),
{
    if digits.len() == 0 {
        0
    } else {
        (10 * decimal_value(digits.drop_last()) + (digits.last() as u32 - '0' as u32)) as nat
    }
}

/// What a success response holds before the length of its body.
pub open spec fn ok_head() -> Seq<char> {
    "HTTP/1.1 200 OK\r\nContent-Type: application/json\r\nContent-Length: "@
}

/// What a success response holds between the length of its body and the body.
pub open spec fn ok_tail() -> Seq<char> {
    "\r\nConnection: close\r\n\r\n"@
}

/// The success response with body `json`: `Content-Length` is the number of
/// bytes of `json` in UTF-8.
pub open spec fn ok_response_text(json: Seq<char>) -> Seq<char> {
    ok_head() + decimal_digits(encode_utf8(json).len()) + ok_tail() + json
}

/// The response to whatever is not matched: a 404 without a body.
pub open spec fn not_found_text() -> Seq<char> {
    "HTTP/1.1 404 Not Found\r\nContent-Length: 0\r\nConnection: close\r\n\r\n"@
}

/// Decimal digits denote the number they were written for.
pub proof fn lemma_decimal_round_trip(n: nat)
    ensures
        decimal_value(decimal_digits(n)) == n,
        decimal_digits(n).len() > 0,
        forall|i: int|
            0 <= i < decimal_digits(n).len() ==> '0' <= #[trigger] decimal_digits(n)[i] <= '9',
    decreases n,
{
    if n < 10 {
        assert(decimal_digits(n).drop_last() =~= Seq::<char>::empty());
        assert(decimal_value(Seq::<char>::empty()) == 0);
    } else {
        lemma_decimal_round_trip(n / 10);
        assert(decimal_digits(n).drop_last() =~= decimal_digits(n / 10));
    }
}

/// The headers of the success response with body `json`.
pub open spec fn ok_response_headers(json: Seq<char>) -> Map<Seq<char>, Seq<char>> {
    Map::<Seq<char>, Seq<char>>::empty().insert("Content-Type"@, "application/json"@).insert(
        "Content-Length"@,
        decimal_digits(encode_utf8(json).len()),
    ).insert("Connection"@, "close"@)
}

/// The headers of the 404.
pub open spec fn not_found_headers() -> Map<Seq<char>, Seq<char>> {
    Map::<Seq<char>, Seq<char>>::empty().insert("Content-Length"@, "0"@).insert(
        "Connection"@,
        "close"@,
    )
}

/// A success response reads back. Its status line is `HTTP/1.1 200 OK`; its
/// headers are `Content-Type`, `Content-Length` and `Connection`; the digits
/// of `Content-Length` denote the number of bytes of the body; and the body is
/// what follows the empty line.
pub proof fn lemma_ok_response_reads_back(json: Seq<char>)
    ensures
        first_line(ok_response_text(json)) == "HTTP/1.1 200 OK"@,
        header_map(ok_response_text(json)) == ok_response_headers(json),
        decimal_value(ok_response_headers(json)["Content-Length"@]) == encode_utf8(json).len(),
        lines_of(ok_response_text(json)).len() == 5 + lines_of(json).len(),
        lines_of(ok_response_text(json))[4] == Seq::<char>::empty(),
        lines_of(ok_response_text(json)).skip(5) == lines_of(json),
{
    reveal_strlit("HTTP/1.1 200 OK\r\nContent-Type: application/json\r\nContent-Length: ");
    reveal_strlit("\r\nConnection: close\r\n\r\n");
    reveal_strlit("HTTP/1.1 200 OK");
    reveal_strlit("Content-Type");
    reveal_strlit("application/json");
    reveal_strlit("Content-Length");
    reveal_strlit("Connection");
    reveal_strlit("close");
    let digits = decimal_digits(encode_utf8(json).len());
    lemma_decimal_round_trip(encode_utf8(json).len());
    let crlf = seq!['\r', '\n'];
    let sep = seq![':', ' '];
    let status = "HTTP/1.1 200 OK"@;
    let kind = "Content-Type"@ + sep + "application/json"@;
    let length = "Content-Length"@ + sep + digits;
    let connection = "Connection"@ + sep + "close"@;
    let empty = Seq::<char>::empty();
    let after_connection = empty + crlf + json;
    let after_length = connection + crlf + after_connection;
    let after_kind = length + crlf + after_length;
    let after_status = kind + crlf + after_kind;
    let text = ok_response_text(json);
    assert(text =~= status + crlf + after_status);
    assert(!length.contains('\n')) by {
        if length.contains('\n') {
            let i = choose|i: int| 0 <= i < length.len() && length[i] == '\n';
            if i >= 16 {
                assert(length[i] == digits[i - 16]);
            }
        }
    }
    lemma_lines_of_crlf(status, after_status);
    lemma_lines_of_crlf(kind, after_kind);
    lemma_lines_of_crlf(length, after_length);
    lemma_lines_of_crlf(connection, after_connection);
    lemma_lines_of_crlf(empty, json);
    let lines = lines_of(text);
    assert(lines =~= seq![status, kind, length, connection, empty] + lines_of(json));
    assert(lines.skip(5) =~= lines_of(json));
    let rest = lines.drop_first();
    assert(rest[0] == kind && rest[1] == length && rest[2] == connection && rest[3] == empty);
    lemma_index_of_first(rest, empty, 3);
    let block = header_block(lines);
    assert(block =~= seq![kind, length, connection]);
    lemma_header_line_round_trip("Content-Type"@, "application/json"@);
    lemma_header_line_round_trip("Content-Length"@, digits);
    lemma_header_line_round_trip("Connection"@, "close"@);
    let none = Seq::<Seq<char>>::empty();
    assert(block =~= none.push(kind).push(length).push(connection));
    lemma_collect_headers_push(none, kind);
    lemma_collect_headers_push(none.push(kind), length);
    lemma_collect_headers_push(none.push(kind).push(length), connection);
}

/// The 404 reads back. Its status line is `HTTP/1.1 404 Not Found`, its
/// headers are `Content-Length: 0` and `Connection: close`, and nothing
/// follows the empty line.
pub proof fn lemma_not_found_reads_back()
    ensures
        first_line(not_found_text()) == "HTTP/1.1 404 Not Found"@,
        header_map(not_found_text()) == not_found_headers(),
        lines_of(not_found_text()).len() == 4,
        lines_of(not_found_text())[3] == Seq::<char>::empty(),
{
    reveal_strlit("HTTP/1.1 404 Not Found\r\nContent-Length: 0\r\nConnection: close\r\n\r\n");
    reveal_strlit("HTTP/1.1 404 Not Found");
    reveal_strlit("Content-Length");
    reveal_strlit("0");
    reveal_strlit("Connection");
    reveal_strlit("close");
    let crlf = seq!['\r', '\n'];
    let sep = seq![':', ' '];
    let status = "HTTP/1.1 404 Not Found"@;
    let length = "Content-Length"@ + sep + "0"@;
    let connection = "Connection"@ + sep + "close"@;
    let empty = Seq::<char>::empty();
    let after_connection = empty + crlf + empty;
    let after_length = connection + crlf + after_connection;
    let after_status = length + crlf + after_length;
    let text = not_found_text();
    assert(text =~= status + crlf + after_status);
    lemma_lines_of_crlf(status, after_status);
    lemma_lines_of_crlf(length, after_length);
    lemma_lines_of_crlf(connection, after_connection);
    lemma_lines_of_crlf(empty, empty);
    let lines = lines_of(text);
    assert(lines =~= seq![status, length, connection, empty]);
    let rest = lines.drop_first();
    assert(rest[0] == length && rest[1] == connection && rest[2] == empty);
    lemma_index_of_first(rest, empty, 2);
    let block = header_block(lines);
    assert(block =~= seq![length, connection]);
    lemma_header_line_round_trip("Content-Length"@, "0"@);
    lemma_header_line_round_trip("Connection"@, "close"@);
    let none = Seq::<Seq<char>>::empty();
    assert(block =~= none.push(length).push(connection));
    lemma_collect_headers_push(none, length);
    lemma_collect_headers_push(none.push(length), connection);
}

/// The text of one decimal digit.
fn digit_str(d: usize) -> (digit: &'static str)
    requires
        d < 10,
    ensures
        digit@ == seq![digit_char(d as nat)],
{
    proof {
        reveal_strlit("0");
        reveal_strlit("1");
        reveal_strlit("2");
        reveal_strlit("3");
        reveal_strlit("4");
        reveal_strlit("5");
        reveal_strlit("6");
        reveal_strlit("7");
        reveal_strlit("8");
        reveal_strlit("9");
    }
    let digit = if d == 0 {
        "0"
    } else if d == 1 {
        "1"
    } else if d == 2 {
        "2"
    } else if d == 3 {
        "3"
    } else if d == 4 {
        "4"
    } else if d == 5 {
        "5"
    } else if d == 6 {
        "6"
    } else if d == 7 {
        "7"
    } else if d == 8 {
        "8"
    } else {
        "9"
    };
    assert(digit@ =~= seq![digit_char(d as nat)]);
    digit
}

/// Appends the decimal digits of `n` to `out`.
pub fn push_decimal(out: &mut String, n: usize)
    ensures
        final(out)@ == old(out)@ + decimal_digits(n as nat),
    decreases n,
{
    if n >= 10 {
        push_decimal(out, n / 10);
    }
    out.append(digit_str(n % 10));
    proof {
        let digits = decimal_digits(n as nat);
        if n >= 10 {
            assert(old(out)@ + decimal_digits((n / 10) as nat) + seq![digit_char((n % 10) as nat)]
                =~= old(out)@ + digits);
        } else {
            assert(old(out)@ + seq![digit_char(n as nat)] =~= old(out)@ + digits);
        }
    }
}

/// The success response with body `json`.
pub fn ok_response(json: &str) -> (response: String)
    ensures
        response@ == ok_response_text(json@),
{
    let mut response =
        "HTTP/1.1 200 OK\r\nContent-Type: application/json\r\nContent-Length: ".to_owned();
    push_decimal(&mut response, json.as_bytes().len());
    response.append("\r\nConnection: close\r\n\r\n");
    response.append(json);
    response
}

/// The response to whatever is not matched.
pub fn not_found_response() -> (response: String)
    ensures
        response@ == not_found_text(),
{
    "HTTP/1.1 404 Not Found\r\nContent-Length: 0\r\nConnection: close\r\n\r\n".to_owned()
}

} // verus!
