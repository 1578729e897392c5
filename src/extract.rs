use vstd::prelude::*;
use vstd::utf8::{decode_utf8, decode_utf8_encode_utf8, encode_utf8, valid_utf8};
use crate::history::CommitRecord;
use crate::text::decode_text;

verus! {

/// The file name under which the revision of one commit is stored:
/// `{timestamp}_{id}.json`.
pub open spec fn file_name_of(timestamp: Seq<char>, id: Seq<char>) -> Seq<char> {
    timestamp + seq!['_'] + id + seq!['.', 'j', 's', 'o', 'n']
}

/// Builds the output file name of a commit from its timestamp and id.
pub fn output_file_name(timestamp: &str, id: &str) -> (r: String)
    ensures
        r@ == file_name_of(timestamp@, id@),
{
    let mut name = timestamp.to_owned();
    name.append("_");
    name.append(id);
    name.append(".json");
    proof {
        reveal_strlit("_");
        reveal_strlit(".json");
    }
    assert(name@ =~= file_name_of(timestamp@, id@));
    name
}

broadcast use vstd::string::group_string_axioms;

/// `name` inside the directory `dir`: joined by one `'/'` unless `dir` is
/// empty or already ends with one.
pub open spec fn joined(dir: Seq<char>, name: Seq<char>) -> Seq<char> {
    if dir.len() == 0 {
        name
    } else if dir.last() == '/' {
        dir + name
    } else {
        dir + seq!['/'] + name
    }
}

/// Where the revision of the commit `(timestamp, id)` is stored under `dir`.
pub open spec fn output_path_of(dir: Seq<char>, timestamp: Seq<char>, id: Seq<char>) -> Seq<
    char,
> {
    joined(dir, file_name_of(timestamp, id))
}

/// The path of the output file of `commit` inside the directory `dir`.
pub fn output_path(dir: &str, commit: &CommitRecord) -> (r: String)
    ensures
        r@ == output_path_of(dir@, commit.timestamp@, commit.id@),
{
    let name = output_file_name(commit.timestamp.as_str(), commit.id.as_str());
    let n = dir.unicode_len();
    if n == 0 {
        return name;
    }
    let mut path = dir.to_owned();
    if dir.get_char(n - 1) != '/' {
        path.append("/");
        proof {
            reveal_strlit("/");
        }
    }
    path.append(name.as_str());
    assert(path@ =~= output_path_of(dir@, commit.timestamp@, commit.id@));
    path
}

/// The file argument that names `target` at the repository root:
/// `root-file:"<target>"`.
pub fn file_spec_arg(target: &str) -> (r: String)
    ensures
        r@ == seq!['r', 'o', 'o', 't', '-', 'f', 'i', 'l', 'e', ':', '"'] + target@ + seq!['"'],
{
    let mut arg = "root-file:\"".to_owned();
    arg.append(target);
    arg.append("\"");
    proof {
        reveal_strlit("root-file:\"");
        reveal_strlit("\"");
    }
    assert(arg@ =~= seq!['r', 'o', 'o', 't', '-', 'f', 'i', 'l', 'e', ':', '"'] + target@ + seq![
        '"',
    ]);
    arg
}

/// Why one extraction unit failed.
#[derive(Debug, Clone, Copy, PartialEq, Eq, Structural)]
pub enum UnitFailure {
    /// The read-file operation exited unsuccessfully.
    ReadFailed,
    /// The retrieved content is not UTF-8 text.
    NotText,
    /// Writing the output file failed.
    WriteFailed,
    /// The unit's task did not complete.
    Crashed,
}

/// The outcome of one extraction unit.
pub enum ExtractionOutcome {
    /// The revision was written to this path.
    Success(String),
    Failure(UnitFailure),
}

/// What a unit writes: the text of the revision, to its output path.
pub struct WritePlan {
    pub path: String,
    pub content: String,
}

/// What a unit decides once the read-file operation has returned: an
/// unsuccessful read or content that is not text fails the unit; otherwise the
/// decoded content is to be written to the commit's output path.
pub open spec fn planned(
    dir: Seq<char>,
    timestamp: Seq<char>,
    id: Seq<char>,
    succeeded: bool,
    content: Seq<u8>,
) -> Result<(Seq<char>, Seq<char>), UnitFailure> {
    if !succeeded {
        Err(UnitFailure::ReadFailed)
    } else if !valid_utf8(content) {
        Err(UnitFailure::NotText)
    } else {
        Ok((output_path_of(dir, timestamp, id), decode_utf8(content)))
    }
}

/// The view of a unit's decision.
pub open spec fn plan_view(r: Result<WritePlan, UnitFailure>) -> Result<
    (Seq<char>, Seq<char>),
    UnitFailure,
> {
    match r {
        Ok(p) => Ok((p.path@, p.content@)),
        Err(f) => Err(f),
    }
}

/// Decides what the unit of `commit` writes, from the result of reading the
/// target file at that commit.
pub fn plan_write(dir: &str, commit: &CommitRecord, succeeded: bool, content: Vec<u8>) -> (r:
    Result<WritePlan, UnitFailure>)
    ensures
        plan_view(r) == planned(dir@, commit.timestamp@, commit.id@, succeeded, content@),
{
    if !succeeded {
        return Err(UnitFailure::ReadFailed);
    }
    match decode_text(content) {
        Some(text) => Ok(WritePlan { path: output_path(dir, commit), content: text }),
        None => Err(UnitFailure::NotText),
    }
}

/// The outcome of a unit once its write has been attempted.
pub fn finish_unit(plan: WritePlan, written: bool) -> (r: ExtractionOutcome)
    ensures
        written ==> r == ExtractionOutcome::Success(plan.path),
        !written ==> r == ExtractionOutcome::Failure(UnitFailure::WriteFailed),
{
    if written {
        ExtractionOutcome::Success(plan.path)
    } else {
        ExtractionOutcome::Failure(UnitFailure::WriteFailed)
    }
}

/// Extraction is idempotent: two runs for the same commit and directory that
/// read the same bytes both write to the commit's output path, and what they
/// write encodes to exactly the bytes that were read.
pub proof fn lemma_rerun_writes_same_bytes(
    dir: Seq<char>,
    timestamp: Seq<char>,
    id: Seq<char>,
    succeeded: bool,
    first: Seq<u8>,
    second: Seq<u8>,
)
    requires
        first == second,
    ensures
        planned(dir, timestamp, id, succeeded, first) == planned(
            dir,
            timestamp,
            id,
            succeeded,
            second,
        ),
        planned(dir, timestamp, id, succeeded, first) is Ok ==> {
            let p = planned(dir, timestamp, id, succeeded, first)->Ok_0;
            &&& p.0 == output_path_of(dir, timestamp, id)
            &&& encode_utf8(p.1) == first
        },
{
    if succeeded && valid_utf8(first) {
        decode_utf8_encode_utf8(first);
    }
}

/// Output names are determined by `(timestamp, id)`, and two commits whose
/// timestamps hold no `'_'` share an output path in one directory only if their
/// timestamps and ids are both equal.
pub proof fn lemma_output_paths_distinct(
    dir: Seq<char>,
    ts1: Seq<char>,
    id1: Seq<char>,
    ts2: Seq<char>,
    id2: Seq<char>,
)
    requires
        !ts1.contains('_'),
        !ts2.contains('_'),
    ensures
        output_path_of(dir, ts1, id1) == output_path_of(dir, ts2, id2) <==> (ts1 == ts2 && id1
            == id2),
{
    let n1 = file_name_of(ts1, id1);
    let n2 = file_name_of(ts2, id2);
    if output_path_of(dir, ts1, id1) == output_path_of(dir, ts2, id2) {
        let p = output_path_of(dir, ts1, id1);
        let pre = p.len() - n1.len();
        assert(n1 =~= p.skip(pre));
        assert(n2 =~= p.skip(pre));
        if ts1.len() < ts2.len() {
            assert(n1[ts1.len() as int] == '_');
            assert(n2[ts1.len() as int] == ts2[ts1.len() as int]);
            assert(ts2.contains(ts2[ts1.len() as int]));
        } else if ts2.len() < ts1.len() {
            assert(n2[ts2.len() as int] == '_');
            assert(n1[ts2.len() as int] == ts1[ts2.len() as int]);
            assert(ts1.contains(ts1[ts2.len() as int]));
        }
        assert(ts1 =~= n1.take(ts1.len() as int));
        assert(ts2 =~= n2.take(ts2.len() as int));
        assert(id1 =~= n1.subrange(ts1.len() + 1int, n1.len() - 5int));
        assert(id2 =~= n2.subrange(ts2.len() + 1int, n2.len() - 5int));
    }
}

} // verus!
