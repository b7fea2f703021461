//! The header map of a request: what a header line holds, which lines of a
//! request are header lines, and the map they add up to.

use crate::text::{
    chars_of, find_from, is_trimmed, lemma_index_of_first, lemma_trimmed_is_subrange,
    lemma_trimmed_is_trimmed, lines_of, split_lines, str_eq, trim, trimmed, views_of,
};
use vstd::prelude::*;

verus! {

/// The name and the value of a header line: what stands before and after its
/// first colon, each without surrounding white space. A line without a colon
/// holds no header.
pub open spec fn header_of_line(line: Seq<char>) -> Option<(Seq<char>, Seq<char>)> {
    match line.index_of_first(':') {
        Some(at) => Some((trimmed(line.take(at)), trimmed(line.skip(at + 1)))),
        None => None,
    }
}

/// Whether `line` holds a header whose name is `name`.
pub open spec fn line_names(line: Seq<char>, name: Seq<char>) -> bool {
    header_of_line(line) matches Some((n, _)) && n == name
}

/// The header lines among the lines of a request: those after the first line
/// and before the first empty line.
pub open spec fn header_block(lines: Seq<Seq<char>>) -> Seq<Seq<char>> {
    let rest = if lines.len() > 0 {
        lines.drop_first()
    } else {
        lines
    };
    match rest.index_of_first(Seq::<char>::empty()) {
        Some(end) => rest.take(end),
        None => rest,
    }
}

/// The map that header lines add up to when they are read in order: each line
/// that holds a header sets the value of its name.
pub open spec fn collect_headers(lines: Seq<Seq<char>>) -> Map<Seq<char>, Seq<char>>
    decreases lines.len(),
{
    if lines.len() == 0 {
        Map::empty()
    } else {
        let before = collect_headers(lines.drop_last());
        match header_of_line(lines.last()) {
            Some((name, value)) => before.insert(name, value),
            None => before,
        }
    }
}

/// The header map of a request text.
pub open spec fn header_map(request: Seq<char>) -> Map<Seq<char>, Seq<char>> {
    collect_headers(header_block(lines_of(request)))
}

/// One more line at the end sets the value of its name, if it holds a header.
pub proof fn lemma_collect_headers_push(lines: Seq<Seq<char>>, line: Seq<char>)
    ensures
        collect_headers(lines.push(line)) == match header_of_line(line) {
            Some((name, value)) => collect_headers(lines).insert(name, value),
            None => collect_headers(lines),
        },
{
    assert(lines.push(line).drop_last() =~= lines);
}

/// The names of the collected map are the names of the lines that hold a
/// header, and they are finitely many.
pub proof fn lemma_collected_names(lines: Seq<Seq<char>>, name: Seq<char>)
    ensures
        collect_headers(lines).dom().finite(),
        collect_headers(lines).contains_key(name) <==> exists|i: int|
            0 <= i < lines.len() && line_names(#[trigger] lines[i], name),
    decreases lines.len(),
{
    if lines.len() > 0 {
        let front = lines.drop_last();
        lemma_collected_names(front, name);
        if collect_headers(lines).contains_key(name) {
            if collect_headers(front).contains_key(name) {
                let i = choose|i: int| 0 <= i < front.len() && line_names(#[trigger] front[i], name);
                assert(line_names(lines[i], name));
            } else {
                assert(line_names(lines[lines.len() - 1], name));
            }
        }
        if exists|i: int| 0 <= i < lines.len() && line_names(#[trigger] lines[i], name) {
            let i = choose|i: int| 0 <= i < lines.len() && line_names(#[trigger] lines[i], name);
            if i < front.len() {
                assert(line_names(front[i], name));
            }
        }
    }
}

/// Where a name occurs in several header lines, the value of the last one
/// stays: a line's value is the value of its name unless a later line holds
/// the same name.
pub proof fn lemma_last_header_wins(
    lines: Seq<Seq<char>>,
    at: int,
    name: Seq<char>,
    value: Seq<char>,
)
    requires
        0 <= at < lines.len(),
        header_of_line(lines[at]) == Some((name, value)),
        forall|j: int| at < j < lines.len() ==> !line_names(#[trigger] lines[j], name),
    ensures
        collect_headers(lines).contains_key(name),
        collect_headers(lines)[name] == value,
    decreases lines.len(),
{
    if at < lines.len() - 1 {
        let front = lines.drop_last();
        assert(front[at] == lines[at]);
        assert forall|j: int| at < j < front.len() implies !line_names(
            #[trigger] front[j],
            name,
        ) by {
            assert(front[j] == lines[j]);
        }
        lemma_last_header_wins(front, at, name, value);
        assert(!line_names(lines[lines.len() - 1], name));
    }
}

/// A line without a colon is passed over: the map is the one of the other
/// lines.
pub proof fn lemma_line_without_colon_is_ignored(lines: Seq<Seq<char>>, at: int)
    requires
        0 <= at < lines.len(),
        !lines[at].contains(':'),
    ensures
        collect_headers(lines) == collect_headers(lines.remove(at)),
    decreases lines.len(),
{
    lines[at].index_of_first_ensures(':');
    if at == lines.len() - 1 {
        assert(lines.remove(at) =~= lines.drop_last());
    } else {
        let front = lines.drop_last();
        assert(front[at] == lines[at]);
        lemma_line_without_colon_is_ignored(front, at);
        assert(lines.remove(at).drop_last() =~= front.remove(at));
        assert(lines.remove(at).last() == lines.last());
    }
}

/// A header line reads back: a name without a colon, a colon, a space and a
/// value, neither with white space at its ends, hold that name and value.
pub proof fn lemma_header_line_round_trip(name: Seq<char>, value: Seq<char>)
    requires
        !name.contains(':'),
        is_trimmed(name),
        is_trimmed(value),
    ensures
        header_of_line(name + seq![':', ' '] + value) == Some((name, value)),
{
    let line = name + seq![':', ' '] + value;
    assert forall|j: int| 0 <= j < name.len() implies #[trigger] line[j] != ':' by {
        assert(name.contains(name[j]));
    }
    lemma_index_of_first(line, ':', name.len() as int);
    assert(line.take(name.len() as int) =~= name);
    lemma_trimmed_is_trimmed(name);
    let after = line.skip(name.len() as int + 1);
    assert(after =~= seq![' '] + value);
    assert(after.subrange(1, after.len() as int) =~= value);
    lemma_trimmed_is_subrange(after, 1, after.len() as int);
}

/// A request text without header lines has the empty header map: one of at
/// most one line, or one whose second line is empty.
pub proof fn lemma_no_header_lines(request: Seq<char>)
    requires
        lines_of(request).len() <= 1 || lines_of(request)[1].len() == 0,
    ensures
        header_map(request) == Map::<Seq<char>, Seq<char>>::empty(),
{
    let lines = lines_of(request);
    let rest = if lines.len() > 0 {
        lines.drop_first()
    } else {
        lines
    };
    if lines.len() > 1 {
        assert(rest[0] == lines[1]);
        assert(rest[0] =~= Seq::<char>::empty());
    }
    lemma_index_of_first(rest, Seq::<char>::empty(), 0);
    assert(header_block(lines) =~= Seq::<Seq<char>>::empty());
}

/// The empty text has the empty header map.
pub proof fn lemma_empty_text_has_no_headers()
    ensures
        header_map(Seq::<char>::empty()) == Map::<Seq<char>, Seq<char>>::empty(),
{
    lemma_no_header_lines(Seq::<char>::empty());
}

/// One entry of a header map.
pub(crate) struct Header {
    pub(crate) name: String,
    pub(crate) value: String,
}

/// A map from header names to header values. Names are case-sensitive, and
/// each name occurs once.
pub struct HeaderMap {
    pub(crate) entries: Vec<Header>,
}

/// No two entries have the same name.
spec fn names_distinct(entries: Seq<Header>) -> bool {
    forall|i: int, j: int|
        0 <= i < j < entries.len() ==> (#[trigger] entries[i]).name@ != (#[trigger] entries[j]).name@
}

/// The map that a list of entries stands for.
spec fn entries_map(entries: Seq<Header>) -> Map<Seq<char>, Seq<char>>
    decreases entries.len(),
{
    if entries.len() == 0 {
        Map::empty()
    } else {
        entries_map(entries.drop_last()).insert(entries.last().name@, entries.last().value@)
    }
}

/// The names in the map are the names of the entries.
proof fn lemma_entries_map_dom(entries: Seq<Header>, name: Seq<char>)
    ensures
        entries_map(entries).dom().finite(),
        entries_map(entries).contains_key(name) <==> exists|i: int|
            0 <= i < entries.len() && (#[trigger] entries[i]).name@ == name,
    decreases entries.len(),
{
    if entries.len() > 0 {
        let front = entries.drop_last();
        lemma_entries_map_dom(front, name);
        if entries_map(entries).contains_key(name) {
            if entries.last().name@ == name {
                assert(entries[entries.len() - 1].name@ == name);
            } else {
                let i = choose|i: int| 0 <= i < front.len() && (#[trigger] front[i]).name@ == name;
                assert(entries[i].name@ == name);
            }
        }
        if exists|i: int| 0 <= i < entries.len() && (#[trigger] entries[i]).name@ == name {
            let i = choose|i: int| 0 <= i < entries.len() && (#[trigger] entries[i]).name@ == name;
            if i < front.len() {
                assert(front[i].name@ == name);
            }
        }
    }
}

/// Where names are distinct, each entry's name maps to that entry's value, and
/// the map has as many names as there are entries.
proof fn lemma_entries_map_distinct(entries: Seq<Header>)
    requires
        names_distinct(entries),
    ensures
        entries_map(entries).len() == entries.len(),
        forall|i: int|
            0 <= i < entries.len() ==> entries_map(entries)[(#[trigger] entries[i]).name@]
                == entries[i].value@,
    decreases entries.len(),
{
    if entries.len() > 0 {
        let front = entries.drop_last();
        let last = entries.last();
        assert(names_distinct(front)) by {
            assert forall|i: int, j: int| 0 <= i < j < front.len() implies (#[trigger] front[i]).name@
                != (#[trigger] front[j]).name@ by {
                assert(front[i] == entries[i] && front[j] == entries[j]);
            }
        }
        lemma_entries_map_distinct(front);
        lemma_entries_map_dom(front, last.name@);
        assert(!entries_map(front).contains_key(last.name@)) by {
            if entries_map(front).contains_key(last.name@) {
                let i = choose|i: int|
                    0 <= i < front.len() && (#[trigger] front[i]).name@ == last.name@;
                assert(entries[i].name@ == entries[entries.len() - 1].name@);
            }
        }
        assert forall|i: int| 0 <= i < entries.len() implies entries_map(entries)[(
        #[trigger] entries[i]).name@] == entries[i].value@ by {
            if i < front.len() {
                assert(front[i] == entries[i]);
                assert(entries[i].name@ != entries[entries.len() - 1].name@);
            }
        }
    }
}

/// Replacing an entry by one of the same name sets that name's value.
proof fn lemma_entries_map_update(entries: Seq<Header>, at: int, entry: Header)
    requires
        0 <= at < entries.len(),
        names_distinct(entries),
        entries[at].name@ == entry.name@,
    ensures
        names_distinct(entries.update(at, entry)),
        entries_map(entries.update(at, entry)) == entries_map(entries).insert(
            entry.name@,
            entry.value@,
        ),
    decreases entries.len(),
{
    let updated = entries.update(at, entry);
    assert(names_distinct(updated)) by {
        assert forall|i: int, j: int| 0 <= i < j < updated.len() implies (
        #[trigger] updated[i]).name@ != (#[trigger] updated[j]).name@ by {
            assert(updated[i].name@ == entries[i].name@);
            assert(updated[j].name@ == entries[j].name@);
        }
    }
    let front = entries.drop_last();
    let last = entries.last();
    if at == entries.len() - 1 {
        assert(updated.drop_last() =~= front);
        assert(entries_map(updated) =~= entries_map(entries).insert(entry.name@, entry.value@));
    } else {
        assert(names_distinct(front)) by {
            assert forall|i: int, j: int| 0 <= i < j < front.len() implies (#[trigger] front[i]).name@
                != (#[trigger] front[j]).name@ by {
                assert(front[i] == entries[i] && front[j] == entries[j]);
            }
        }
        assert(front[at] == entries[at]);
        lemma_entries_map_update(front, at, entry);
        assert(updated.drop_last() =~= front.update(at, entry));
        assert(updated.last() == last);
        assert(entries[at].name@ != entries[entries.len() - 1].name@);
        assert(entries_map(updated) =~= entries_map(entries).insert(entry.name@, entry.value@));
    }
}

impl View for HeaderMap {
    type V = Map<Seq<char>, Seq<char>>;

    closed spec fn view(&self) -> Map<Seq<char>, Seq<char>> {
        entries_map(self.entries@)
    }
}

impl HeaderMap {
    #[verifier::type_invariant]
    spec fn well_formed(self) -> bool {
        names_distinct(self.entries@)
    }

    /// The position of the entry named `name`, if there is one.
    fn position(&self, name: &str) -> (at: Option<usize>)
        ensures
            match at {
                Some(i) => i < self.entries.len() && self.entries[i as int].name@ == name@,
                None => forall|i: int|
                    0 <= i < self.entries.len() ==> (#[trigger] self.entries[i]).name@ != name@,
            },
    {
        let mut i: usize = 0;
        while i < self.entries.len()
            invariant
                i <= self.entries.len(),
                forall|j: int| 0 <= j < i ==> (#[trigger] self.entries[j]).name@ != name@,
            decreases self.entries.len() - i,
        {
            if str_eq(self.entries[i].name.as_str(), name) {
                return Some(i);
            }
            i += 1;
        }
        None
    }

    /// An empty map.
    pub fn new() -> (headers: HeaderMap)
        ensures
            headers@ == Map::<Seq<char>, Seq<char>>::empty(),
    {
        HeaderMap { entries: Vec::new() }
    }

    /// The number of names in the map.
    pub fn len(&self) -> (n: usize)
        ensures
            self@.dom().finite(),
            n == self@.len(),
    {
        proof {
            use_type_invariant(self);
            lemma_entries_map_distinct(self.entries@);
            lemma_entries_map_dom(self.entries@, Seq::empty());
        }
        self.entries.len()
    }

    /// Whether the map holds no name.
    pub fn is_empty(&self) -> (empty: bool)
        ensures
            empty == (self@ == Map::<Seq<char>, Seq<char>>::empty()),
    {
        proof {
            if self.entries.len() > 0 {
                lemma_entries_map_dom(self.entries@, self.entries[0].name@);
                assert(self@.contains_key(self.entries[0].name@));
            }
        }
        self.entries.len() == 0
    }

    /// The value of `name`, if the map holds that name.
    pub fn get(&self, name: &str) -> (value: Option<&str>)
        ensures
            match value {
                Some(v) => self@.contains_key(name@) && v@ == self@[name@],
                None => !self@.contains_key(name@),
            },
    {
        proof {
            use_type_invariant(self);
            lemma_entries_map_distinct(self.entries@);
            lemma_entries_map_dom(self.entries@, name@);
        }
        match self.position(name) {
            Some(i) => Some(self.entries[i].value.as_str()),
            None => None,
        }
    }

    /// Sets the value of `name` to `value`, whether or not the map held that
    /// name before.
    pub fn insert(&mut self, name: String, value: String)
        ensures
            final(self)@ == old(self)@.insert(name@, value@),
    {
        proof {
            use_type_invariant(&*self);
            lemma_entries_map_dom(self.entries@, name@);
        }
        let entry = Header { name, value };
        let at = self.position(entry.name.as_str());
        let mut entries: Vec<Header> = Vec::new();
        core::mem::swap(&mut self.entries, &mut entries);
        match at {
            Some(i) => {
                proof {
                    lemma_entries_map_update(entries@, i as int, entry);
                }
                entries.set(i, entry);
            },
            None => {
                proof {
                    assert(entries@.push(entry).drop_last() =~= entries@);
                    assert(names_distinct(entries@.push(entry)));
                }
                entries.push(entry);
            },
        }
        self.entries = entries;
    }
}

/// Splits a header line into its name and its value.
pub fn split_header(line: &str) -> (header: Option<(&str, &str)>)
    ensures
        match header {
            Some((name, value)) => header_of_line(line@) == Some((name@, value@)),
            None => header_of_line(line@) is None,
        },
{
    let chars = chars_of(line);
    let n = chars.len();
    let at = find_from(&chars, 0, ':');
    proof {
        assert(chars@.skip(0) =~= chars@);
    }
    if at < n {
        let name = trim(line.substring_char(0, at));
        let value = trim(line.substring_char(at + 1, n));
        proof {
            assert(line@.take(at as int) =~= line@.subrange(0, at as int));
            assert(line@.skip(at + 1) =~= line@.subrange(at + 1, n as int));
        }
        Some((name, value))
    } else {
        None
    }
}

/// Reads the headers of a request: the lines after the request line, up to
/// the first empty line. A line without a colon is passed over; where a name
/// occurs more than once, its last value stays.
pub fn parse_headers(request: &str) -> (headers: HeaderMap)
    ensures
        headers@ == header_map(request@),
{
    let lines = split_lines(request);
    let mut headers = HeaderMap::new();
    let ghost rest = if lines_of(request@).len() > 0 {
        lines_of(request@).drop_first()
    } else {
        lines_of(request@)
    };
    if lines.len() == 0 {
        proof {
            lemma_index_of_first(rest, Seq::<char>::empty(), 0);
        }
        return headers;
    }
    let mut i: usize = 1;
    while i < lines.len() && !lines[i].is_empty()
        invariant
            1 <= i <= lines.len(),
            views_of(lines@) == lines_of(request@),
            rest == lines_of(request@).drop_first(),
            headers@ == collect_headers(rest.take(i - 1)),
            forall|j: int| 0 <= j < i - 1 ==> (#[trigger] rest[j]).len() > 0,
        decreases lines.len() - i,
    {
        let line = lines[i];
        proof {
            assert(line@ == views_of(lines@)[i as int]);
            assert(rest[i - 1] == line@);
            assert(rest.take(i as int).drop_last() =~= rest.take(i - 1));
        }
        match split_header(line) {
            Some((name, value)) => {
                headers.insert(name.to_owned(), value.to_owned());
            },
            None => {},
        }
        i += 1;
    }
    proof {
        if i < lines.len() {
            assert(lines[i as int]@ == views_of(lines@)[i as int]);
            assert(rest[i - 1] =~= Seq::<char>::empty());
        } else {
            assert(rest.take(i - 1) =~= rest);
        }
        lemma_index_of_first(rest, Seq::<char>::empty(), i - 1);
    }
    headers
}

} // verus!
