//! Character-level text primitives: white space, trimming, lines and tokens.
//!
//! The contracts speak of the sequence of characters of each argument.

use vstd::prelude::*;

verus! {

/// Whether `c` has the Unicode `White_Space` property.
pub open spec fn is_whitespace(c: char) -> bool {
    let u = c as u32;
    ||| 0x09 <= u <= 0x0D
    ||| u == 0x20
    ||| u == 0x85
    ||| u == 0xA0
    ||| u == 0x1680
    ||| 0x2000 <= u <= 0x200A
    ||| u == 0x2028
    ||| u == 0x2029
    ||| u == 0x202F
    ||| u == 0x205F
    ||| u == 0x3000
}

/// The length of the longest prefix of `s` whose characters are all white
/// space (`white == true`) or all not white space (`white == false`).
pub open spec fn run_length(s: Seq<char>, white: bool) -> int
    decreases s.len(),
{
    if s.len() > 0 && is_whitespace(s[0]) == white {
        1 + run_length(s.drop_first(), white)
    } else {
        0
    }
}

/// `s` without its leading and trailing white space.
pub open spec fn trimmed(s: Seq<char>) -> Seq<char>
    decreases s.len(),
{
    if s.len() > 0 && is_whitespace(s.first()) {
        trimmed(s.drop_first())
    } else if s.len() > 0 && is_whitespace(s.last()) {
        trimmed(s.drop_last())
    } else {
        s
    }
}

/// `line` without one trailing carriage return, if it has one.
pub open spec fn without_trailing_cr(line: Seq<char>) -> Seq<char> {
    if line.len() > 0 && line.last() == '\r' {
        line.drop_last()
    } else {
        line
    }
}

/// The lines of `text`. A line ends at a line feed; the line feed, and a
/// carriage return directly before it, belong to no line. What follows the
/// last line feed is a line of its own unless it is empty.
pub open spec fn lines_of(text: Seq<char>) -> Seq<Seq<char>>
    decreases text.len(),
{
    if text.len() == 0 {
        Seq::empty()
    } else {
        match text.index_of_first('\n') {
            Some(feed) => {
                proof {
                    text.index_of_first_ensures('\n');
                }
                seq![without_trailing_cr(text.take(feed))] + lines_of(text.skip(feed + 1))
            },
            None => seq![text],
        }
    }
}

/// The first line of `text`; empty where `text` has no line.
pub open spec fn first_line(text: Seq<char>) -> Seq<char> {
    if lines_of(text).len() > 0 {
        lines_of(text)[0]
    } else {
        Seq::empty()
    }
}

/// The maximal runs of characters of `line` that are not white space, in order.
pub open spec fn tokens_of(line: Seq<char>) -> Seq<Seq<char>>
    decreases line.len(),
{
    let gap = run_length(line, true);
    let word = run_length(line.skip(gap), false);
    if word > 0 {
        proof {
            lemma_run_length_is_maximal(line, true);
            lemma_run_length_is_maximal(line.skip(gap), false);
        }
        seq![line.subrange(gap, gap + word)] + tokens_of(line.skip(gap + word))
    } else {
        Seq::empty()
    }
}

/// The character sequences of a sequence of string slices.
pub open spec fn views_of(parts: Seq<&str>) -> Seq<Seq<char>> {
    parts.map_values(|part: &str| part@)
}

/// A run that stops at `k` has length `k`.
pub proof fn lemma_run_length(s: Seq<char>, white: bool, k: int)
    requires
        0 <= k <= s.len(),
        forall|j: int| 0 <= j < k ==> is_whitespace(#[trigger] s[j]) == white,
        k < s.len() ==> is_whitespace(s[k]) != white,
    ensures
        run_length(s, white) == k,
    decreases s.len(),
{
    if k > 0 {
        let rest = s.drop_first();
        assert forall|j: int| 0 <= j < k - 1 implies is_whitespace(#[trigger] rest[j]) == white by {
            assert(rest[j] == s[j + 1]);
        }
        lemma_run_length(rest, white, k - 1);
    }
}

/// A run is a prefix: its length lies between 0 and the length of `s`, every
/// character inside it is of the run's kind, and the one after it is not.
pub proof fn lemma_run_length_is_maximal(s: Seq<char>, white: bool)
    ensures
        0 <= run_length(s, white) <= s.len(),
        forall|j: int| 0 <= j < run_length(s, white) ==> is_whitespace(#[trigger] s[j]) == white,
        run_length(s, white) < s.len() ==> is_whitespace(s[run_length(s, white)]) != white,
    decreases s.len(),
{
    if s.len() > 0 && is_whitespace(s[0]) == white {
        let rest = s.drop_first();
        lemma_run_length_is_maximal(rest, white);
        assert forall|j: int| 0 <= j < run_length(s, white) implies is_whitespace(#[trigger] s[j])
            == white by {
            if j > 0 {
                assert(s[j] == rest[j - 1]);
            }
        }
        if run_length(s, white) < s.len() {
            assert(s[run_length(s, white)] == rest[run_length(rest, white)]);
        }
    }
}

/// Trimming keeps exactly the characters from the first to the last one that
/// is not white space.
pub proof fn lemma_trimmed_is_subrange(s: Seq<char>, a: int, b: int)
    requires
        0 <= a <= b <= s.len(),
        forall|j: int| 0 <= j < a ==> is_whitespace(#[trigger] s[j]),
        forall|j: int| b <= j < s.len() ==> is_whitespace(#[trigger] s[j]),
        a < b ==> !is_whitespace(s[a]) && !is_whitespace(s[b - 1]),
    ensures
        trimmed(s) == s.subrange(a, b),
    decreases s.len(),
{
    if s.len() == 0 {
        assert(s.subrange(a, b) =~= s);
    } else if is_whitespace(s.first()) {
        let rest = s.drop_first();
        assert forall|j: int| 0 <= j < rest.len() implies rest[j] == s[j + 1] by {}
        if a > 0 {
            lemma_trimmed_is_subrange(rest, a - 1, b - 1);
            assert(rest.subrange(a - 1, b - 1) =~= s.subrange(a, b));
        } else {
            assert(b == 0);
            lemma_trimmed_is_subrange(rest, 0, 0);
            assert(rest.subrange(0, 0) =~= s.subrange(a, b));
        }
    } else if is_whitespace(s.last()) {
        let rest = s.drop_last();
        assert(a == 0);
        assert(b < s.len());
        lemma_trimmed_is_subrange(rest, a, b);
        assert(rest.subrange(a, b) =~= s.subrange(a, b));
    } else {
        assert(a == 0);
        assert(b == s.len());
        assert(s.subrange(a, b) =~= s);
    }
}

/// Whether `s` neither starts nor ends with white space.
pub open spec fn is_trimmed(s: Seq<char>) -> bool {
    s.len() > 0 ==> !is_whitespace(s.first()) && !is_whitespace(s.last())
}

/// Trimming leaves nothing to trim, and changes nothing where nothing is to
/// trim.
pub proof fn lemma_trimmed_is_trimmed(s: Seq<char>)
    ensures
        is_trimmed(trimmed(s)),
        is_trimmed(s) ==> trimmed(s) == s,
    decreases s.len(),
{
    if s.len() > 0 && is_whitespace(s.first()) {
        lemma_trimmed_is_trimmed(s.drop_first());
    } else if s.len() > 0 && is_whitespace(s.last()) {
        lemma_trimmed_is_trimmed(s.drop_last());
    }
}

/// A line that is closed by a carriage return and a line feed is the first
/// line of a text, and the lines of what follows are the other lines.
pub proof fn lemma_lines_of_crlf(line: Seq<char>, rest: Seq<char>)
    requires
        !line.contains('\n'),
    ensures
        lines_of(line + seq!['\r', '\n'] + rest) == seq![line] + lines_of(rest),
{
    let text = line + seq!['\r', '\n'] + rest;
    let feed = line.len() as int + 1;
    assert forall|j: int| 0 <= j < feed implies #[trigger] text[j] != '\n' by {
        if j < line.len() {
            assert(line.contains(line[j]));
        }
    }
    lemma_index_of_first(text, '\n', feed);
    assert(text.take(feed) =~= line.push('\r'));
    assert(line.push('\r').drop_last() =~= line);
    assert(text.skip(feed + 1) =~= rest);
}

/// The first occurrence of `c` is at `k`; with `k == s.len()` there is none.
pub proof fn lemma_index_of_first<A>(s: Seq<A>, c: A, k: int)
    requires
        0 <= k <= s.len(),
        forall|j: int| 0 <= j < k ==> #[trigger] s[j] != c,
        k < s.len() ==> s[k] == c,
    ensures
        s.index_of_first(c) == if k < s.len() {
            Some(k)
        } else {
            None
        },
{
    s.index_of_first_ensures(c);
    if k < s.len() {
        assert(s.contains(c));
    }
}

/// Tests `c` for the Unicode `White_Space` property.
pub fn char_is_whitespace(c: char) -> (res: bool)
    ensures
        res == is_whitespace(c),
{
    let u: u32 = c as u32;
    (0x09 <= u && u <= 0x0D) || u == 0x20 || u == 0x85 || u == 0xA0 || u == 0x1680 || (0x2000 <= u
        && u <= 0x200A) || u == 0x2028 || u == 0x2029 || u == 0x202F || u == 0x205F || u == 0x3000
}

/// Whether `a` and `b` hold the same characters.
pub fn str_eq(a: &str, b: &str) -> (res: bool)
    ensures
        res == (a@ == b@),
{
    let x = a.as_bytes();
    let y = b.as_bytes();
    proof {
        vstd::utf8::encode_utf8_decode_utf8(a@);
        vstd::utf8::encode_utf8_decode_utf8(b@);
    }
    if x.len() != y.len() {
        return false;
    }
    let mut i: usize = 0;
    while i < x.len()
        invariant
            x@ == vstd::utf8::encode_utf8(a@),
            y@ == vstd::utf8::encode_utf8(b@),
            x@.len() == y@.len(),
            i <= x@.len(),
            forall|j: int| 0 <= j < i ==> x@[j] == y@[j],
        decreases x.len() - i,
    {
        if x[i] != y[i] {
            return false;
        }
        i += 1;
    }
    proof {
        assert(x@ =~= y@);
    }
    true
}

/// The characters of `text`, in order.
pub fn chars_of(text: &str) -> (chars: Vec<char>)
    ensures
        chars@ == text@,
{
    broadcast use vstd::string::group_string_axioms;

    let mut chars: Vec<char> = Vec::new();
    for c in it: text.chars()
        invariant
            it.seq() == text@,
            chars@ == text@.take(it.index()),
    {
        chars.push(c);
    }
    chars
}

/// The position of the first `c` in `chars` at or after `from`, or
/// `chars.len()` when there is none.
pub(crate) fn find_from(chars: &Vec<char>, from: usize, c: char) -> (at: usize)
    requires
        from <= chars.len(),
    ensures
        from <= at <= chars.len(),
        chars@.skip(from as int).index_of_first(c) == if at < chars.len() {
            Some(at - from)
        } else {
            None
        },
{
    let n = chars.len();
    let mut at = from;
    while at < n && chars[at] != c
        invariant
            n == chars.len(),
            from <= at <= n,
            forall|j: int| from <= j < at ==> chars@[j] != c,
        decreases n - at,
    {
        at += 1;
    }
    proof {
        let rest = chars@.skip(from as int);
        assert forall|j: int| 0 <= j < at - from implies #[trigger] rest[j] != c by {
            assert(rest[j] == chars@[from + j]);
        }
        lemma_index_of_first(rest, c, at - from);
    }
    at
}

/// The end of the run of white space (`white == true`) or of other characters
/// (`white == false`) that starts at `from`.
pub(crate) fn skip_run(chars: &Vec<char>, from: usize, white: bool) -> (to: usize)
    requires
        from <= chars.len(),
    ensures
        from <= to <= chars.len(),
        to - from == run_length(chars@.skip(from as int), white),
{
    let n = chars.len();
    let mut to = from;
    while to < n && char_is_whitespace(chars[to]) == white
        invariant
            n == chars.len(),
            from <= to <= n,
            forall|j: int| from <= j < to ==> is_whitespace(chars@[j]) == white,
        decreases n - to,
    {
        to += 1;
    }
    proof {
        let rest = chars@.skip(from as int);
        assert forall|j: int| 0 <= j < to - from implies is_whitespace(#[trigger] rest[j])
            == white by {
            assert(rest[j] == chars@[from + j]);
        }
        lemma_run_length(rest, white, to - from);
    }
    to
}

/// `text` without its leading and trailing white space.
pub fn trim(text: &str) -> (res: &str)
    ensures
        res@ == trimmed(text@),
{
    let chars = chars_of(text);
    let start = skip_run(&chars, 0, true);
    let mut end = chars.len();
    while end > start && char_is_whitespace(chars[end - 1])
        invariant
            start <= end <= chars.len(),
            forall|j: int| end <= j < chars.len() ==> is_whitespace(chars@[j]),
        decreases end,
    {
        end -= 1;
    }
    proof {
        assert(chars@.skip(0) =~= chars@);
        lemma_run_length_is_maximal(chars@, true);
        lemma_trimmed_is_subrange(text@, start as int, end as int);
    }
    text.substring_char(start, end)
}

/// Splits `text` into its lines.
pub fn split_lines(text: &str) -> (lines: Vec<&str>)
    ensures
        views_of(lines@) == lines_of(text@),
{
    let chars = chars_of(text);
    let n = chars.len();
    let mut lines: Vec<&str> = Vec::new();
    let mut start: usize = 0;
    proof {
        assert(text@.skip(0) =~= text@);
        assert(views_of(lines@) + lines_of(text@) =~= lines_of(text@));
    }
    while start < n
        invariant
            n == chars.len(),
            chars@ == text@,
            start <= n,
            views_of(lines@) + lines_of(text@.skip(start as int)) == lines_of(text@),
        decreases n - start,
    {
        let feed = find_from(&chars, start, '\n');
        let ghost rest = text@.skip(start as int);
        let ghost before = views_of(lines@);
        if feed < n {
            let end = if feed > start && chars[feed - 1] == '\r' {
                feed - 1
            } else {
                feed
            };
            let line = text.substring_char(start, end);
            proof {
                assert(rest.take(feed - start) =~= text@.subrange(start as int, feed as int));
                assert(line@ =~= without_trailing_cr(rest.take(feed - start)));
                assert(rest.skip(feed - start + 1) =~= text@.skip(feed + 1));
                assert(views_of(lines@.push(line)) =~= before.push(line@));
                assert(before.push(line@) + lines_of(text@.skip(feed + 1)) =~= before + lines_of(
                    rest,
                ));
            }
            lines.push(line);
            start = feed + 1;
        } else {
            let line = text.substring_char(start, n);
            proof {
                assert(line@ =~= rest);
                assert(views_of(lines@.push(line)) =~= before.push(line@));
                assert(text@.skip(n as int).len() == 0);
                assert(before.push(line@) + lines_of(text@.skip(n as int)) =~= before + lines_of(
                    rest,
                ));
            }
            lines.push(line);
            start = n;
        }
    }
    proof {
        assert(text@.skip(start as int).len() == 0);
        assert(views_of(lines@) + Seq::<Seq<char>>::empty() =~= views_of(lines@));
    }
    lines
}

/// Splits `line` at white space into its tokens.
pub fn split_tokens(line: &str) -> (tokens: Vec<&str>)
    ensures
        views_of(tokens@) == tokens_of(line@),
{
    let chars = chars_of(line);
    let n = chars.len();
    let mut tokens: Vec<&str> = Vec::new();
    let mut pos: usize = 0;
    proof {
        assert(line@.skip(0) =~= line@);
        assert(views_of(tokens@) + tokens_of(line@) =~= tokens_of(line@));
    }
    loop
        invariant
            n == chars.len(),
            chars@ == line@,
            pos <= n,
            views_of(tokens@) + tokens_of(line@.skip(pos as int)) == tokens_of(line@),
        ensures
            views_of(tokens@) == tokens_of(line@),
        decreases n - pos,
    {
        let start = skip_run(&chars, pos, true);
        let end = skip_run(&chars, start, false);
        let ghost rest = line@.skip(pos as int);
        let ghost before = views_of(tokens@);
        proof {
            assert(rest.skip(start - pos) =~= line@.skip(start as int));
        }
        if end == start {
            proof {
                assert(tokens_of(rest) =~= Seq::<Seq<char>>::empty());
                assert(before + Seq::<Seq<char>>::empty() =~= before);
            }
            break ;
        }
        let token = line.substring_char(start, end);
        proof {
            assert(token@ =~= rest.subrange(start - pos, end - pos));
            assert(rest.skip(end - pos) =~= line@.skip(end as int));
            assert(views_of(tokens@.push(token)) =~= before.push(token@));
            assert(before.push(token@) + tokens_of(line@.skip(end as int)) =~= before + tokens_of(
                rest,
            ));
        }
        tokens.push(token);
        pos = end;
    }
    tokens
}

} // verus!
