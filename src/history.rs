use vstd::prelude::*;
use vstd::utf8::{decode_utf8, valid_utf8};
use crate::text::{chars_of, decode_text, is_space, is_space_char};

verus! {

broadcast use vstd::string::group_string_axioms;

/// The number of leading characters of `s` whose whitespace-ness is `space`.
pub open spec fn run_len(s: Seq<char>, space: bool) -> nat
    decreases s.len(),
{
    if s.len() > 0 && is_space(s[0]) == space {
        1 + run_len(s.drop_first(), space)
    } else {
        0
    }
}

/// The number of trailing whitespace characters of `s`.
pub open spec fn trailing_spaces(s: Seq<char>) -> nat
    decreases s.len(),
{
    if s.len() > 0 && is_space(s.last()) {
        1 + trailing_spaces(s.drop_last())
    } else {
        0
    }
}

/// `s` without its leading and trailing whitespace.
pub open spec fn trimmed(s: Seq<char>) -> Seq<char> {
    let t = s.skip(run_len(s, true) as int);
    t.take(t.len() - trailing_spaces(t))
}

/// The `(id, timestamp)` fields of one listing line: the trimmed line is split
/// at its first whitespace run. A line without such a run has no fields.
pub open spec fn fields_of(line: Seq<char>) -> Option<(Seq<char>, Seq<char>)> {
    let t = trimmed(line);
    let k = run_len(t, false);
    if k < t.len() {
        let rest = t.skip(k as int);
        Some((t.take(k as int), rest.skip(run_len(rest, true) as int)))
    } else {
        None
    }
}

/// A line that holds something but not two fields.
pub open spec fn is_malformed(line: Seq<char>) -> bool {
    trimmed(line).len() > 0 && fields_of(line) is None
}

/// The lines of a text, split at each `'\n'`; the last line may be empty.
pub open spec fn lines_of(text: Seq<char>) -> Seq<Seq<char>>
    decreases text.len(),
{
    if text.len() == 0 {
        seq![Seq::empty()]
    } else {
        let prev = lines_of(text.drop_last());
        if text.last() == '\n' {
            prev.push(Seq::empty())
        } else {
            prev.update(prev.len() - 1, prev.last().push(text.last()))
        }
    }
}

/// The records of a listing of lines: the fields of each well-formed line, in order.
pub open spec fn records_of_lines(lines: Seq<Seq<char>>) -> Seq<(Seq<char>, Seq<char>)> {
    lines.filter_map(|l: Seq<char>| fields_of(l))
}

/// The records that a commit listing holds.
pub open spec fn listing_records(text: Seq<char>) -> Seq<(Seq<char>, Seq<char>)> {
    records_of_lines(lines_of(text))
}

/// The malformed lines among `lines`, in order.
pub open spec fn malformed_of_lines(lines: Seq<Seq<char>>) -> Seq<Seq<char>> {
    lines.filter(|l: Seq<char>| is_malformed(l))
}

/// The malformed lines of a commit listing, in order.
pub open spec fn listing_malformed(text: Seq<char>) -> Seq<Seq<char>> {
    malformed_of_lines(lines_of(text))
}

proof fn lemma_run_len(s: Seq<char>, space: bool, n: int)
    requires
        0 <= n <= s.len(),
        forall|k: int| 0 <= k < n ==> is_space(#[trigger] s[k]) == space,
        n == s.len() || is_space(s[n]) != space,
    ensures
        run_len(s, space) == n,
    decreases n,
{
    if n > 0 {
        lemma_run_len(s.drop_first(), space, n - 1);
    }
}

proof fn lemma_trailing_spaces(s: Seq<char>, n: int)
    requires
        0 <= n <= s.len(),
        forall|k: int| s.len() - n <= k < s.len() ==> is_space(#[trigger] s[k]),
        n == s.len() || !is_space(s[s.len() - n - 1]),
    ensures
        trailing_spaces(s) == n,
    decreases n,
{
    if n > 0 {
        lemma_trailing_spaces(s.drop_last(), n - 1);
    }
}

/// The position of the first character at or after `from` whose
/// whitespace-ness differs from `space`, or `to`.
fn scan_run(c: &Vec<char>, from: usize, to: usize, space: bool) -> (r: usize)
    requires
        from <= to <= c@.len(),
    ensures
        from <= r <= to,
        r - from == run_len(c@.subrange(from as int, to as int), space),
{
    let mut i: usize = from;
    while i < to && is_space_char(c[i]) == space
        invariant
            from <= i <= to <= c@.len(),
            forall|k: int| from <= k < i ==> is_space(#[trigger] c@[k]) == space,
        decreases to - i,
    {
        i += 1;
    }
    proof {
        let s = c@.subrange(from as int, to as int);
        assert forall|k: int| 0 <= k < i - from implies is_space(#[trigger] s[k]) == space by {
            assert(s[k] == c@[from + k]);
        }
        lemma_run_len(s, space, i - from);
    }
    i
}

/// The position just after the last non-whitespace character in
/// `from..to`, or `from`.
fn scan_trailing(c: &Vec<char>, from: usize, to: usize) -> (r: usize)
    requires
        from <= to <= c@.len(),
    ensures
        from <= r <= to,
        to - r == trailing_spaces(c@.subrange(from as int, to as int)),
{
    let mut i: usize = to;
    while i > from && is_space_char(c[i - 1])
        invariant
            from <= i <= to <= c@.len(),
            forall|k: int| i <= k < to ==> is_space(#[trigger] c@[k]),
        decreases i - from,
    {
        i -= 1;
    }
    proof {
        let s = c@.subrange(from as int, to as int);
        assert forall|k: int| s.len() - (to - i) <= k < s.len() implies is_space(
            #[trigger] s[k],
        ) by {
            assert(s[k] == c@[from + k]);
        }
        if i > from {
            assert(s[s.len() - (to - i) - 1] == c@[i - 1]);
        }
        lemma_trailing_spaces(s, to - i);
    }
    i
}

/// One commit of the history: its identifier and its timestamp in
/// seconds since the epoch, as decimal text.
pub struct CommitRecord {
    pub id: String,
    pub timestamp: String,
}

impl View for CommitRecord {
    type V = (Seq<char>, Seq<char>);

    open spec fn view(&self) -> (Seq<char>, Seq<char>) {
        (self.id@, self.timestamp@)
    }
}

/// What a commit listing yields: its records in listing order, and the
/// malformed lines that were skipped.
pub struct Listing {
    pub records: Vec<CommitRecord>,
    pub malformed: Vec<String>,
}

/// The views of a vector of records.
pub open spec fn record_views(v: Seq<CommitRecord>) -> Seq<(Seq<char>, Seq<char>)> {
    v.map_values(|r: CommitRecord| r@)
}

/// The views of a vector of strings.
pub open spec fn string_views(v: Seq<String>) -> Seq<Seq<char>> {
    v.map_values(|s: String| s@)
}

/// Parses the line at `start..end` of `text` and appends it to `records`, or to
/// `malformed` where it is malformed. A blank line is dropped.
fn take_line(
    text: &str,
    c: &Vec<char>,
    start: usize,
    end: usize,
    records: &mut Vec<CommitRecord>,
    malformed: &mut Vec<String>,
)
    requires
        c@ == text@,
        start <= end <= c@.len(),
    ensures
        ({
            let line = c@.subrange(start as int, end as int);
            &&& record_views(final(records)@) == match fields_of(line) {
                Some(f) => record_views(old(records)@).push(f),
                None => record_views(old(records)@),
            }
            &&& string_views(final(malformed)@) == if is_malformed(line) {
                string_views(old(malformed)@).push(line)
            } else {
                string_views(old(malformed)@)
            }
        }),
{
    let ghost line = c@.subrange(start as int, end as int);
    let a = scan_run(c, start, end, true);
    let b = scan_trailing(c, a, end);
    let k = scan_run(c, a, b, false);
    proof {
        let t0 = line.skip(run_len(line, true) as int);
        assert(t0 =~= c@.subrange(a as int, end as int));
        assert(trimmed(line) =~= c@.subrange(a as int, b as int));
    }
    if a == b {
        return;
    }
    if k == b {
        let raw = text.substring_char(start, end).to_owned();
        proof {
            let ghost old_m = malformed@;
            assert(string_views(old_m.push(raw)) =~= string_views(old_m).push(raw@));
        }
        malformed.push(raw);
        return;
    }
    let j = scan_run(c, k, b, true);
    let id = text.substring_char(a, k).to_owned();
    let timestamp = text.substring_char(j, b).to_owned();
    proof {
        let t = c@.subrange(a as int, b as int);
        let rest = t.skip(k - a);
        assert(rest =~= c@.subrange(k as int, b as int));
        assert(t.take(k - a) =~= c@.subrange(a as int, k as int));
        assert(rest.skip(run_len(rest, true) as int) =~= c@.subrange(j as int, b as int));
    }
    let r = CommitRecord { id, timestamp };
    proof {
        let ghost old_r = records@;
        assert(record_views(old_r.push(r)) =~= record_views(old_r).push(r@));
    }
    records.push(r);
}

/// Parses a commit listing: one `"<id> <timestamp>"` line per commit, oldest
/// first. Blank lines are dropped, lines without two fields are set apart as
/// malformed, and the order of the listing is kept.
pub fn parse_listing(text: &str) -> (r: Listing)
    ensures
        record_views(r.records@) == listing_records(text@),
        string_views(r.malformed@) == listing_malformed(text@),
{
    let c = chars_of(text);
    let n = c.len();
    let mut records: Vec<CommitRecord> = Vec::new();
    let mut malformed: Vec<String> = Vec::new();
    let mut start: usize = 0;
    let mut i: usize = 0;
    let ghost mut done: Seq<Seq<char>> = Seq::empty();
    proof {
        assert(record_views(records@) =~= Seq::empty());
        assert(string_views(malformed@) =~= Seq::empty());
        assert(c@.take(0) =~= Seq::<char>::empty());
        assert(c@.subrange(0, 0) =~= Seq::<char>::empty());
        assert(lines_of(c@.take(0)) =~= done.push(c@.subrange(0, 0)));
    }
    while i < n
        invariant
            c@ == text@,
            n == c@.len(),
            start <= i <= n,
            lines_of(c@.take(i as int)) == done.push(c@.subrange(start as int, i as int)),
            record_views(records@) == records_of_lines(done),
            string_views(malformed@) == malformed_of_lines(done),
        decreases n - i,
    {
        let ghost prefix = c@.take(i + 1);
        proof {
            assert(prefix.drop_last() =~= c@.take(i as int));
            assert(prefix.last() == c@[i as int]);
        }
        if c[i] == '\n' {
            take_line(text, &c, start, i, &mut records, &mut malformed);
            proof {
                let line = c@.subrange(start as int, i as int);
                let nd = done.push(line);
                reveal(Seq::filter);
                assert(nd.drop_last() =~= done);
                assert(c@.subrange(i + 1, i + 1) =~= Seq::<char>::empty());
                assert(lines_of(prefix) =~= nd.push(c@.subrange(i + 1, i + 1)));
                done = nd;
            }
            start = i + 1;
        } else {
            proof {
                assert(c@.subrange(start as int, i as int).push(c@[i as int]) =~= c@.subrange(
                    start as int,
                    i + 1,
                ));
                assert(lines_of(prefix) =~= done.push(c@.subrange(start as int, i + 1)));
            }
        }
        i += 1;
    }
    take_line(text, &c, start, n, &mut records, &mut malformed);
    proof {
        let line = c@.subrange(start as int, n as int);
        let nd = done.push(line);
        reveal(Seq::filter);
        assert(nd.drop_last() =~= done);
        assert(c@.take(n as int) =~= c@);
    }
    Listing { records, malformed }
}

/// Why the history of the repository could not be had.
#[derive(Debug, Clone, Copy, PartialEq, Eq, Structural)]
pub enum HistoryUnavailable {
    /// The listing operation exited unsuccessfully.
    CommandFailed,
    /// The listing operation's output is not UTF-8 text.
    NotText,
}

/// Turns the result of the listing operation into the commit records: an
/// unsuccessful exit or output that is not UTF-8 makes the history unavailable.
pub fn read_history(succeeded: bool, stdout: Vec<u8>) -> (r: Result<Listing, HistoryUnavailable>)
    ensures
        !succeeded ==> r == Err::<Listing, HistoryUnavailable>(HistoryUnavailable::CommandFailed),
        succeeded && !valid_utf8(stdout@) ==> r == Err::<Listing, HistoryUnavailable>(
            HistoryUnavailable::NotText,
        ),
        succeeded && valid_utf8(stdout@) ==> r is Ok && record_views(r->Ok_0.records@)
            == listing_records(decode_utf8(stdout@)) && string_views(r->Ok_0.malformed@)
            == listing_malformed(decode_utf8(stdout@)),
{
    if !succeeded {
        return Err(HistoryUnavailable::CommandFailed);
    }
    match decode_text(stdout) {
        Some(text) => Ok(parse_listing(text.as_str())),
        None => Err(HistoryUnavailable::NotText),
    }
}

/// A line with two fields.
pub open spec fn is_well_formed(line: Seq<char>) -> bool {
    fields_of(line) is Some
}

/// The records of a listing are the fields of its well-formed lines, one for
/// each such line, in the order of the lines.
pub proof fn lemma_records_are_well_formed_lines(lines: Seq<Seq<char>>)
    ensures
        records_of_lines(lines) == lines.filter(|l: Seq<char>| is_well_formed(l)).map_values(
            |l: Seq<char>| fields_of(l)->0,
        ),
        records_of_lines(lines).len() == lines.filter(|l: Seq<char>| is_well_formed(l)).len(),
    decreases lines.len(),
{
    reveal(Seq::filter);
    if lines.len() > 0 {
        lemma_records_are_well_formed_lines(lines.drop_last());
    }
    assert(records_of_lines(lines) =~= lines.filter(|l: Seq<char>| is_well_formed(l)).map_values(
        |l: Seq<char>| fields_of(l)->0,
    ));
}

/// Parsing keeps the order of the listing: the records of two runs of lines
/// one after the other are those of the first followed by those of the second.
pub proof fn lemma_records_of_concat(a: Seq<Seq<char>>, b: Seq<Seq<char>>)
    ensures
        records_of_lines(a + b) == records_of_lines(a) + records_of_lines(b),
    decreases b.len(),
{
    if b.len() == 0 {
        assert(a + b =~= a);
        assert(records_of_lines(a) + records_of_lines(b) =~= records_of_lines(a));
    } else {
        lemma_records_of_concat(a, b.drop_last());
        assert((a + b).drop_last() =~= a + b.drop_last());
        assert((a + b).last() == b.last());
        assert(records_of_lines(a + b) =~= records_of_lines(a) + records_of_lines(b));
    }
}

} // verus!
