//! Repository access.
//!
//! Everything the library asks of the embedded version-control library
//! goes through the trusted wrappers here; each wrapper makes one
//! conceptual repository operation and converts raw values to plain ones.
//! On top of them stand the verified commit-graph walker, which visits
//! every reachable commit exactly once, and the query that folds a whole
//! history into a chart.

use vstd::prelude::*;

use git2::{Oid, TreeWalkMode, TreeWalkResult};

use crate::read::{
    bytes_eq, chart_from_records, decode_failures, records_view, spec_chart, spec_skipped_files,
    ArchiveFile, Chart, CommitRecord, QueueHistoryQuery, RetentionPolicy, SkippedFile,
};

verus! {

/// A repository or object-graph failure, fatal to the operation that met
/// it.
#[derive(Debug, PartialEq)]
pub struct ArchiveError {
    pub message: String,
}

/// Spec-level value of an `ArchiveError`.
pub struct ArchiveErrorV {
    pub message: Seq<char>,
}

impl View for ArchiveError {
    type V = ArchiveErrorV;

    open spec fn view(&self) -> ArchiveErrorV {
        ArchiveErrorV { message: self.message@ }
    }
}

/// Declares git2::Repository, the embedded repository handle, so that it
/// can stand in signatures; the library never looks inside it.
#[verifier::external_type_specification]
#[verifier::external_body]
pub struct ExRepository(git2::Repository);

/// Declares git2::Error, the embedded library's failure type, so that a
/// wrapper can take it apart.
#[verifier::external_type_specification]
#[verifier::external_body]
pub struct ExGitError(git2::Error);

/// Relies on git2::Error::message: carry the failure's text over into the
/// library's own error type.
#[verifier::external_body]
fn git_err(e: git2::Error) -> ArchiveError {
    ArchiveError { message: e.message().to_string() }
}

/// Relies on git2: Repository::head and Reference::peel_to_commit find
/// the commit the head reference points at; a repository without any
/// commit yet has none.
#[verifier::external_body]
pub(crate) fn head_commit_id(repo: &git2::Repository) -> Result<Option<Vec<u8>>, ArchiveError> {
    match repo.head().and_then(|h| h.peel_to_commit()) {
        Ok(c) => Ok(Some(c.id().as_bytes().to_vec())),
        Err(e) if e.code() == git2::ErrorCode::UnbornBranch => Ok(None),
        Err(e) if e.code() == git2::ErrorCode::NotFound => Ok(None),
        Err(e) => Err(git_err(e)),
    }
}

/// Relies on git2: Commit::time gives the author clock (seconds and UTC
/// offset) and Commit::parent_ids the identities of the parents.
#[verifier::external_body]
pub(crate) fn commit_meta(
    repo: &git2::Repository,
    id: &Vec<u8>,
) -> Result<(i64, i32, Vec<Vec<u8>>), ArchiveError> {
    let oid = git2::Oid::from_bytes(id.as_slice()).map_err(git_err)?;
    let commit = repo.find_commit(oid).map_err(git_err)?;
    let time = commit.time();
    let parents = commit.parent_ids().map(|p| p.as_bytes().to_vec()).collect();
    Ok((time.seconds(), time.offset_minutes(), parents))
}

/// Relies on git2: Tree::walk in pre-order yields every entry of the
/// commit's tree; each blob is taken with its raw bytes and its full
/// path from the repository root, and no path filtering is applied. A
/// failed object lookup aborts the whole walk.
#[verifier::external_body]
pub(crate) fn commit_files(
    repo: &git2::Repository,
    id: &Vec<u8>,
) -> Result<Vec<ArchiveFile>, ArchiveError> {
    let oid = Oid::from_bytes(id).map_err(git_err)?;
    let tree = repo.find_commit(oid).and_then(|c| c.tree()).map_err(git_err)?;
    let (mut out, mut failed) = (Vec::new(), None);
    tree.walk(TreeWalkMode::PreOrder, |root, e| match e.to_object(repo) {
        Err(err) => { failed = Some(err); TreeWalkResult::Abort },
        Ok(o) => { if let Ok(b) = o.into_blob() {
            out.push(ArchiveFile {
                path: format!("{}{}", root, e.name().unwrap_or("")),
                content: b.content().to_vec(),
            });
        } TreeWalkResult::Ok },
    }).map_err(|we| git_err(failed.take().unwrap_or(we)))?;
    Ok(out)
}

/// Relies on git2: Index::add_frombuffer stages one file from memory, and
/// Index::write persists the staging area.
#[verifier::external_body]
pub(crate) fn stage_snapshot_file(
    repo: &git2::Repository,
    path: &String,
    content: &String,
) -> Result<(), ArchiveError> {
    let mut index = repo.index().map_err(git_err)?;
    let entry = git2::IndexEntry {
        ctime: git2::IndexTime::new(0, 0), mtime: git2::IndexTime::new(0, 0),
        dev: 0, ino: 0, mode: 0o100644, uid: 0, gid: 0, file_size: 0,
        id: git2::Oid::ZERO_SHA1, flags: 0, flags_extended: 0,
        path: path.as_bytes().to_vec(),
    };
    index.add_frombuffer(&entry, content.as_bytes()).map_err(git_err)?;
    index.write().map_err(git_err)
}

/// Relies on git2: Index::remove_path unstages one file, and Index::write
/// persists the staging area.
#[verifier::external_body]
pub(crate) fn unstage_file(repo: &git2::Repository, path: &String) -> Result<(), ArchiveError> {
    let mut index = repo.index().map_err(git_err)?;
    index.remove_path(std::path::Path::new(path.as_str())).map_err(git_err)?;
    index.write().map_err(git_err)
}

/// Relies on git2: Index::write_tree hashes the staged state into a tree,
/// and Repository::commit writes one commit on top of the current head,
/// with the archive's fixed author identity and fixed message.
#[verifier::external_body]
pub(crate) fn commit_staged(repo: &git2::Repository, now_unix: i64) -> Result<(), ArchiveError> {
    let mut index = repo.index().map_err(git_err)?;
    let tree_id = index.write_tree().map_err(git_err)?;
    let tree = repo.find_tree(tree_id).map_err(git_err)?;
    let sig = git2::Signature::new("logger", "logger@amcoff.net", &git2::Time::new(now_unix, 0))
        .map_err(git_err)?;
    let parent = repo.head().and_then(|h| h.peel_to_commit()).map_err(git_err)?;
    repo.commit(Some("HEAD"), &sig, &sig, "Update", &tree, &[&parent]).map_err(git_err)?;
    Ok(())
}

/// Relies on git2: Remote::push sends the branch the head points at to
/// the remote conventionally named origin.
#[verifier::external_body]
pub(crate) fn push_origin(repo: &git2::Repository) -> Result<(), ArchiveError> {
    let head = repo.head().map_err(git_err)?;
    let branch = head.name().unwrap_or("refs/heads/main").to_string();
    let mut remote = repo.find_remote("origin").map_err(git_err)?;
    remote.push(&[format!("{0}:{0}", branch)], None).map_err(git_err)
}

/// Whether a byte string occurs in the list.
fn contains_bytes(v: &Vec<Vec<u8>>, x: &Vec<u8>) -> (r: bool)
    ensures
        r == exists|m: int| 0 <= m < v@.len() && v@[m]@ == x@,
{
    let mut k: usize = 0;
    while k < v.len()
        invariant
            k <= v.len(),
            forall|m: int| 0 <= m < k ==> v@[m]@ != x@,
        decreases v.len() - k,
    {
        if bytes_eq(&v[k], x) {
            return true;
        }
        k = k + 1;
    }
    false
}

/// Walk the commit graph from the current head with an explicit worklist
/// and a visited set keyed by commit identity, so that every reachable
/// commit is taken up exactly once however merges shape the graph; every
/// record carries a distinct commit. Any object-access failure aborts the
/// whole walk. An unborn head yields no records at all.
pub fn collect_history(repo: &git2::Repository) -> (r: Result<Vec<CommitRecord>, ArchiveError>)
    ensures
        match r {
            Ok(records) => forall|i: int, j: int|
                0 <= i < j < records@.len() ==> records@[i].id@ != records@[j].id@,
            Err(_) => true,
        },
{
    let head = match head_commit_id(repo) {
        Ok(h) => h,
        Err(e) => {
            return Err(e);
        },
    };
    let mut records: Vec<CommitRecord> = Vec::new();
    let mut worklist: Vec<Vec<u8>> = Vec::new();
    let mut visited: Vec<Vec<u8>> = Vec::new();
    match head {
        None => {
            return Ok(records);
        },
        Some(h) => {
            worklist.push(h);
        },
    }
    let mut fuel: u64 = u64::MAX;
    loop
        invariant
            forall|i: int, j: int|
                0 <= i < j < records@.len() ==> records@[i].id@ != records@[j].id@,
            forall|i: int|
                0 <= i < records@.len() ==> exists|m: int|
                    0 <= m < visited@.len() && visited@[m]@ == #[trigger] records@[i].id@,
        decreases fuel,
    {
        if fuel == 0 {
            let msg_chars = crate::text::chars_vec("commit graph walk did not finish");
            return Err(ArchiveError { message: crate::text::string_from_chars(&msg_chars) });
        }
        fuel = fuel - 1;
        let id = match worklist.pop() {
            None => {
                return Ok(records);
            },
            Some(id) => id,
        };
        if contains_bytes(&visited, &id) {
            continue ;
        }
        proof {
            assert(forall|m: int| 0 <= m < visited@.len() ==> visited@[m]@ != id@);
            assert(forall|i: int| 0 <= i < records@.len() ==> #[trigger] records@[i].id@ != id@);
        }
        let ghost visited_before = visited@;
        visited.push(crate::read::to_owned_bytes(&id));
        proof {
            assert(visited@[visited_before.len() as int]@ == id@);
            assert(forall|i: int|
                0 <= i < records@.len() ==> exists|m: int|
                    0 <= m < visited@.len() && visited@[m]@ == #[trigger] records@[i].id@) by {
                assert(forall|m: int| 0 <= m < visited_before.len() ==> visited@[m] == visited_before[m]);
            }
        }
        let (seconds, offset_minutes, parents) = match commit_meta(repo, &id) {
            Ok(m) => m,
            Err(e) => {
                return Err(e);
            },
        };
        let files = match commit_files(repo, &id) {
            Ok(f) => f,
            Err(e) => {
                return Err(e);
            },
        };
        let ghost records_before = records@;
        records.push(CommitRecord { id, seconds, offset_minutes, files });
        proof {
            let vb_len = visited_before.len() as int;
            assert(records@[records_before.len() as int].id@ == visited@[vb_len]@);
            assert(forall|i: int, j: int|
                0 <= i < j < records@.len() ==> records@[i].id@ != records@[j].id@) by {
                assert(forall|i: int|
                    0 <= i < records_before.len() ==> records@[i] == records_before[i]);
            }
        }
        let mut k: usize = 0;
        while k < parents.len()
            invariant
                k <= parents.len(),
                forall|i: int, j: int|
                    0 <= i < j < records@.len() ==> records@[i].id@ != records@[j].id@,
                forall|i: int|
                    0 <= i < records@.len() ==> exists|m: int|
                        0 <= m < visited@.len() && visited@[m]@ == #[trigger] records@[i].id@,
            decreases parents.len() - k,
        {
            let p = crate::read::to_owned_bytes(&parents[k]);
            worklist.push(p);
            k = k + 1;
        }
    }
}

/// The fixed retention tuning of the archive: history before the cutoff
/// is dropped, one point in fifty is kept, and the hundred most recent
/// indices always survive.
pub fn archive_retention() -> (p: RetentionPolicy)
    ensures
        p.cutoff == 1721253600i64,
        p.stride == 50usize,
        p.tail == 100usize,
{
    RetentionPolicy { cutoff: 1721253600, stride: 50, tail: 100 }
}

/// A reconstructed history: the chart, and every archive file no shape
/// could read, each with its owning commit, so the caller can log what
/// was skipped. Decode failures never fail a read.
pub struct QueueHistoryReport {
    pub chart: Chart,
    pub skipped: Vec<SkippedFile>,
}

/// Reconstruct the queue history of the whole repository. Whatever
/// records the walk yields, the chart and the skipped-file report are
/// their unique fold under the archive's retention tuning, so a fixed
/// repository and a fixed query always produce identical output; only a
/// repository or object-graph failure is an error.
pub fn queue_history_report(repo: &git2::Repository, query: &QueueHistoryQuery) -> (r: Result<
    QueueHistoryReport,
    ArchiveError,
>)
    ensures
        match r {
            Ok(rep) => exists|records: Seq<CommitRecord>|
                rep.chart@ == spec_chart(
                    #[trigger] records_view(records),
                    query.max,
                    RetentionPolicy { cutoff: 1721253600i64, stride: 50usize, tail: 100usize },
                ) && rep.skipped@.map_values(|f: SkippedFile| f@) == spec_skipped_files(
                    records_view(records),
                ),
            Err(_) => true,
        },
{
    let records = match collect_history(repo) {
        Ok(rs) => rs,
        Err(e) => {
            return Err(e);
        },
    };
    let skipped = decode_failures(&records);
    let policy = archive_retention();
    let chart = chart_from_records(&records, query, &policy);
    let rep = QueueHistoryReport { chart, skipped };
    proof {
        assert(rep.chart@ == spec_chart(
            records_view(records@),
            query.max,
            RetentionPolicy { cutoff: 1721253600i64, stride: 50usize, tail: 100usize },
        ) && rep.skipped@.map_values(|f: SkippedFile| f@) == spec_skipped_files(
            records_view(records@),
        ));
    }
    Ok(rep)
}

/// Reconstruct the queue history of the whole repository as a chart.
pub fn queue_history(repo: &git2::Repository, query: &QueueHistoryQuery) -> (r: Result<
    Chart,
    ArchiveError,
>)
    ensures
        match r {
            Ok(c) => exists|records: Seq<CommitRecord>|
                c@ == spec_chart(
                    records_view(records),
                    query.max,
                    RetentionPolicy { cutoff: 1721253600i64, stride: 50usize, tail: 100usize },
                ),
            Err(_) => true,
        },
{
    match queue_history_report(repo, query) {
        Ok(rep) => Ok(rep.chart),
        Err(e) => Err(e),
    }
}

} // verus!
