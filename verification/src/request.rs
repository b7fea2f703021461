//! The request line, and which requests are answered.

use crate::text::{
    first_line, is_whitespace, lemma_lines_of_crlf, lemma_run_length, split_lines,
    split_tokens, str_eq, tokens_of, views_of,
};
use vstd::prelude::*;

verus! {

/// The method and the path of a request: the first two tokens of its first
/// line. A first line with fewer than two tokens holds neither.
pub open spec fn request_line_of(request: Seq<char>) -> Option<(Seq<char>, Seq<char>)> {
    let tokens = tokens_of(first_line(request));
    if tokens.len() >= 2 {
        Some((tokens[0], tokens[1]))
    } else {
        None
    }
}

/// Whether a request asks for `GET /ping`: its method is exactly `GET` and its
/// path exactly `/ping`. What follows the path is not looked at.
pub open spec fn is_ping(request: Seq<char>) -> bool {
    request_line_of(request) == Some(("GET"@, "/ping"@))
}

/// A request that starts with `GET /ping` asks for `GET /ping`, whatever
/// follows the path on the first line and whatever follows the first line.
pub proof fn lemma_get_ping_is_ping(after_path: Seq<char>, rest: Seq<char>)
    requires
        !after_path.contains('\n'),
        after_path.len() > 0 ==> is_whitespace(after_path[0]),
    ensures
        is_ping("GET /ping"@ + after_path + seq!['\r', '\n'] + rest),
{
    reveal_strlit("GET /ping");
    reveal_strlit("GET");
    reveal_strlit("/ping");
    let line = "GET /ping"@ + after_path;
    assert(!line.contains('\n')) by {
        if line.contains('\n') {
            let i = choose|i: int| 0 <= i < line.len() && line[i] == '\n';
            if i >= 9 {
                assert(after_path.contains(after_path[i - 9]));
            }
        }
    }
    lemma_lines_of_crlf(line, rest);
    assert(first_line(line + seq!['\r', '\n'] + rest) == line);
    lemma_run_length(line, true, 0);
    assert(line.skip(0) =~= line);
    lemma_run_length(line, false, 3);
    let tail = line.skip(3);
    lemma_run_length(tail, true, 1);
    lemma_run_length(tail.skip(1), false, 5);
    assert(tokens_of(line) == seq![line.subrange(0, 3)] + tokens_of(tail));
    assert(tokens_of(tail) == seq![tail.subrange(1, 6)] + tokens_of(tail.skip(6)));
    assert(line.subrange(0, 3) =~= "GET"@);
    assert(tail.subrange(1, 6) =~= "/ping"@);
}

/// What a request is taken for.
#[derive(Clone, Copy, Debug, PartialEq, Eq)]
pub enum RequestKind {
    /// `GET /ping`.
    Ping,
    /// Anything else.
    Unmatched,
}

/// Reads the method and the path off the first line of a request.
pub fn parse_request_line(request: &str) -> (line: Option<(&str, &str)>)
    ensures
        match line {
            Some((method, path)) => request_line_of(request@) == Some((method@, path@)),
            None => request_line_of(request@) is None,
        },
{
    let lines = split_lines(request);
    let first = if lines.len() > 0 {
        lines[0]
    } else {
        ""
    };
    proof {
        reveal_strlit("");
        if lines.len() > 0 {
            assert(lines[0]@ == views_of(lines@)[0]);
        }
        assert(first@ =~= first_line(request@));
    }
    let tokens = split_tokens(first);
    if tokens.len() >= 2 {
        proof {
            assert(tokens[0]@ == views_of(tokens@)[0]);
            assert(tokens[1]@ == views_of(tokens@)[1]);
        }
        Some((tokens[0], tokens[1]))
    } else {
        None
    }
}

/// Classifies a request by the method and the path in its first line.
pub fn classify(request: &str) -> (kind: RequestKind)
    ensures
        kind == if is_ping(request@) {
            RequestKind::Ping
        } else {
            RequestKind::Unmatched
        },
{
    match parse_request_line(request) {
        Some((method, path)) => {
            if str_eq(method, "GET") && str_eq(path, "/ping") {
                RequestKind::Ping
            } else {
                RequestKind::Unmatched
            }
        },
        None => RequestKind::Unmatched,
    }
}

} // verus!
