//! The snapshot writer.
//!
//! A write pass turns the current entity set into one file per entity
//! under the archive directory, drops every previously tracked archive
//! file not touched this pass, and commits only when the staged state
//! actually differs from the head commit — so writing an unchanged set is
//! a no-op and writing the same set twice commits exactly once.

use vstd::prelude::*;
use vstd::string::StrSliceExecFns;

use crate::codec::{encode, matches_at, push_lit, push_u32, spec_encode, spec_u32_digits};
use crate::git::ArchiveError;
use crate::model::{str_eq, Property, PropertyV};
use crate::read::{ArchiveFile, ArchiveFileV};
use crate::text::{chars_vec, string_from_chars};

verus! {

/// One file of a snapshot: its path under the repository root and its
/// canonical content.
#[derive(Debug, PartialEq)]
pub struct SnapshotFile {
    pub name: String,
    pub content: String,
}

/// Spec-level value of a `SnapshotFile`.
pub struct SnapshotFileV {
    pub name: Seq<char>,
    pub content: Seq<char>,
}

impl View for SnapshotFile {
    type V = SnapshotFileV;

    open spec fn view(&self) -> SnapshotFileV {
        SnapshotFileV { name: self.name@, content: self.content@ }
    }
}

/// The file one entity is written to: `vacant/{id}-{area}.json`, holding
/// the entity's canonical encoding.
pub open spec fn spec_snapshot_file(p: PropertyV) -> SnapshotFileV {
    SnapshotFileV {
        name: "vacant/"@ + spec_u32_digits(p.id) + "-"@ + p.area + ".json"@,
        content: spec_encode(p),
    }
}

/// Build the file one entity is written to.
pub fn snapshot_file(p: &Property) -> (f: SnapshotFile)
    ensures
        f@ == spec_snapshot_file(p@),
{
    let mut name: Vec<char> = Vec::new();
    push_lit(&mut name, "vacant/");
    push_u32(&mut name, p.id);
    push_lit(&mut name, "-");
    let mut area = chars_vec(p.area.as_str());
    name.append(&mut area);
    push_lit(&mut name, ".json");
    let content = encode(p);
    SnapshotFile { name: string_from_chars(&name), content }
}

/// Enter one file into the plan: a name planned twice keeps its place
/// and takes the later content, so the last write for a name wins and no
/// name is ever planned twice.
pub open spec fn spec_plan_upsert(plan: Seq<SnapshotFileV>, f: SnapshotFileV) -> Seq<SnapshotFileV>
    decreases plan.len(),
{
    if plan.len() == 0 {
        seq![f]
    } else if plan[0].name == f.name {
        seq![f] + plan.drop_first()
    } else {
        seq![plan[0]] + spec_plan_upsert(plan.drop_first(), f)
    }
}

/// Fold the files of the entities from index `k` on into the plan.
pub open spec fn spec_snapshot_plan_from(
    plan: Seq<SnapshotFileV>,
    ps: Seq<PropertyV>,
    k: int,
) -> Seq<SnapshotFileV>
    decreases ps.len() - k,
{
    if k < 0 || k >= ps.len() {
        plan
    } else {
        spec_snapshot_plan_from(spec_plan_upsert(plan, spec_snapshot_file(ps[k])), ps, k + 1)
    }
}

/// The plan of one write pass: one file per entity, each name once.
pub open spec fn spec_snapshot_plan(ps: Seq<PropertyV>) -> Seq<SnapshotFileV> {
    spec_snapshot_plan_from(Seq::empty(), ps, 0)
}

/// The spec-level value of a plan.
pub open spec fn plan_view(plan: Seq<SnapshotFile>) -> Seq<SnapshotFileV> {
    plan.map_values(|f: SnapshotFile| f@)
}

/// The spec-level value of a directory listing.
pub open spec fn dir_view(dir: Seq<ArchiveFile>) -> Seq<ArchiveFileV> {
    dir.map_values(|f: ArchiveFile| f@)
}

/// A found name makes the plan upsert a replacement in place.
proof fn lemma_plan_upsert_at(plan: Seq<SnapshotFileV>, f: SnapshotFileV, k: int)
    requires
        0 <= k < plan.len(),
        forall|m: int| 0 <= m < k ==> #[trigger] plan[m].name != f.name,
        plan[k].name == f.name,
    ensures
        spec_plan_upsert(plan, f) == plan.update(k, f),
    decreases k,
{
    if k == 0 {
        assert(spec_plan_upsert(plan, f) =~= plan.update(0, f));
    } else {
        lemma_plan_upsert_at(plan.drop_first(), f, k - 1);
        assert(plan.drop_first().update(k - 1, f) =~= plan.update(k, f).drop_first());
        assert(spec_plan_upsert(plan, f) =~= plan.update(k, f));
    }
}

/// An absent name makes the plan upsert an append.
proof fn lemma_plan_upsert_absent(plan: Seq<SnapshotFileV>, f: SnapshotFileV)
    requires
        forall|m: int| 0 <= m < plan.len() ==> #[trigger] plan[m].name != f.name,
    ensures
        spec_plan_upsert(plan, f) == plan.push(f),
    decreases plan.len(),
{
    if plan.len() == 0 {
        assert(spec_plan_upsert(plan, f) =~= plan.push(f));
    } else {
        lemma_plan_upsert_absent(plan.drop_first(), f);
        assert(plan.drop_first().push(f) =~= plan.push(f).drop_first());
        assert(spec_plan_upsert(plan, f) =~= plan.push(f));
    }
}

/// Enter one file into the plan.
fn plan_upsert(plan: &mut Vec<SnapshotFile>, f: SnapshotFile)
    ensures
        plan_view(final(plan)@) == spec_plan_upsert(plan_view(old(plan)@), f@),
{
    let ghost p0 = plan_view(plan@);
    let mut k: usize = 0;
    while k < plan.len()
        invariant
            p0 == plan_view(old(plan)@),
            plan_view(plan@) == p0,
            k <= plan.len(),
            forall|m: int| 0 <= m < k ==> #[trigger] p0[m].name != f@.name,
        decreases plan.len() - k,
    {
        proof {
            assert(p0[k as int] == plan@[k as int]@);
        }
        if str_eq(plan[k].name.as_str(), f.name.as_str()) {
            proof {
                lemma_plan_upsert_at(p0, f@, k as int);
            }
            plan.set(k, f);
            proof {
                assert(plan_view(plan@) =~= p0.update(k as int, plan@[k as int]@));
            }
            return ;
        }
        k = k + 1;
    }
    proof {
        lemma_plan_upsert_absent(p0, f@);
    }
    plan.push(f);
    proof {
        assert(plan_view(plan@) =~= p0.push(plan@[plan@.len() - 1]@));
    }
}

/// Plan one write pass over the current entity set.
pub fn snapshot_plan(properties: &Vec<Property>) -> (plan: Vec<SnapshotFile>)
    ensures
        plan_view(plan@) == spec_snapshot_plan(properties@.map_values(|p: Property| p@)),
{
    let ghost psv = properties@.map_values(|p: Property| p@);
    let mut plan: Vec<SnapshotFile> = Vec::new();
    proof {
        assert(plan_view(plan@) =~= Seq::<SnapshotFileV>::empty());
    }
    let mut k: usize = 0;
    while k < properties.len()
        invariant
            psv == properties@.map_values(|p: Property| p@),
            k <= properties.len(),
            spec_snapshot_plan(psv) == spec_snapshot_plan_from(plan_view(plan@), psv, k as int),
        decreases properties.len() - k,
    {
        proof {
            assert(psv[k as int] == properties@[k as int]@);
        }
        let f = snapshot_file(&properties[k]);
        plan_upsert(&mut plan, f);
        k = k + 1;
    }
    plan
}

/// Whether a path lies under the archive directory.
pub open spec fn spec_under_archive(path: Seq<char>) -> bool {
    matches_at(path, 0, "vacant"@)
}

/// Whether the plan writes a file of this name.
pub open spec fn spec_plan_has_name(plan: Seq<SnapshotFileV>, name: Seq<char>) -> bool {
    exists|m: int| 0 <= m < plan.len() && plan[m].name == name
}

/// The previously tracked archive files this pass does not touch: they
/// are deleted so the directory reflects exactly the current entity set.
pub open spec fn spec_stale(dir: Seq<ArchiveFileV>, plan: Seq<SnapshotFileV>) -> Seq<Seq<char>>
    decreases dir.len(),
{
    if dir.len() == 0 {
        Seq::empty()
    } else {
        let rest = spec_stale(dir.drop_first(), plan);
        if spec_under_archive(dir[0].path) && !spec_plan_has_name(plan, dir[0].path) {
            seq![dir[0].path] + rest
        } else {
            rest
        }
    }
}

/// Whether the plan writes a file of this name.
fn plan_has_name(plan: &Vec<SnapshotFile>, name: &str) -> (r: bool)
    ensures
        r == spec_plan_has_name(plan_view(plan@), name@),
{
    let mut m: usize = 0;
    while m < plan.len()
        invariant
            m <= plan.len(),
            forall|i: int| 0 <= i < m ==> #[trigger] plan_view(plan@)[i].name != name@,
        decreases plan.len() - m,
    {
        proof {
            assert(plan_view(plan@)[m as int] == plan@[m as int]@);
        }
        if str_eq(plan[m].name.as_str(), name) {
            return true;
        }
        m = m + 1;
    }
    false
}

/// Collect the previously tracked archive files this pass must delete.
pub fn stale_files(dir: &Vec<ArchiveFile>, plan: &Vec<SnapshotFile>) -> (stale: Vec<String>)
    ensures
        stale@.map_values(|s: String| s@) == spec_stale(dir_view(dir@), plan_view(plan@)),
{
    let ghost dv = dir_view(dir@);
    let ghost pv = plan_view(plan@);
    let mut stale: Vec<String> = Vec::new();
    proof {
        assert(dv.subrange(0, dv.len() as int) =~= dv);
        assert(stale@.map_values(|s: String| s@) =~= Seq::<Seq<char>>::empty());
    }
    let mut k: usize = dir.len();
    while k > 0
        invariant
            dv == dir_view(dir@),
            pv == plan_view(plan@),
            k <= dir.len(),
            stale@.map_values(|s: String| s@) == spec_stale(
                dv.subrange(k as int, dv.len() as int),
                pv,
            ),
        decreases k,
    {
        k = k - 1;
        proof {
            let suf = dv.subrange(k as int, dv.len() as int);
            assert(suf[0] == dv[k as int]);
            assert(dv[k as int] == dir@[k as int]@);
            assert(suf.drop_first() =~= dv.subrange(k + 1 as int, dv.len() as int));
        }
        let ghost stale_before = stale@;
        let path_chars = chars_vec(dir[k].path.as_str());
        let under = match crate::codec::expect(&path_chars, 0, "vacant") {
            Some(_) => true,
            None => false,
        };
        if under && !plan_has_name(plan, dir[k].path.as_str()) {
            let c = chars_vec(dir[k].path.as_str());
            let owned = string_from_chars(&c);
            let mut shifted: Vec<String> = Vec::new();
            shifted.push(owned);
            let mut old_tail = stale;
            stale = shifted;
            stale.append(&mut old_tail);
            proof {
                assert(stale@.map_values(|s: String| s@) =~= seq![dv[k as int].path]
                    + stale_before.map_values(|s: String| s@));
            }
        }
    }
    proof {
        assert(dv.subrange(0, dv.len() as int) =~= dv);
    }
    stale
}

/// What one file of the head commit holds, by name.
pub open spec fn spec_dir_lookup(dir: Seq<ArchiveFileV>, name: Seq<char>) -> Option<Seq<u8>>
    decreases dir.len(),
{
    if dir.len() == 0 {
        None
    } else if dir[0].path == name {
        Some(dir[0].content)
    } else {
        spec_dir_lookup(dir.drop_first(), name)
    }
}

/// Look a file of the head commit up by name.
fn dir_lookup<'a>(dir: &'a Vec<ArchiveFile>, name: &str) -> (r: Option<&'a Vec<u8>>)
    ensures
        match r {
            Some(c) => spec_dir_lookup(dir_view(dir@), name@) == Some(c@),
            None => spec_dir_lookup(dir_view(dir@), name@) is None,
        },
{
    let ghost dv = dir_view(dir@);
    proof {
        assert(dv.subrange(0, dv.len() as int) =~= dv);
    }
    let mut k: usize = 0;
    while k < dir.len()
        invariant
            dv == dir_view(dir@),
            k <= dir.len(),
            spec_dir_lookup(dv, name@) == spec_dir_lookup(
                dv.subrange(k as int, dv.len() as int),
                name@,
            ),
        decreases dir.len() - k,
    {
        proof {
            let suf = dv.subrange(k as int, dv.len() as int);
            assert(suf[0] == dv[k as int]);
            assert(dv[k as int] == dir@[k as int]@);
            assert(suf.drop_first() =~= dv.subrange(k + 1 as int, dv.len() as int));
        }
        if str_eq(dir[k].path.as_str(), name) {
            return Some(&dir[k].content);
        }
        k = k + 1;
    }
    proof {
        assert(dv.subrange(dv.len() as int, dv.len() as int).len() == 0);
    }
    None
}

/// Whether the staged state of a pass would differ from the head commit:
/// some tracked archive file must go, or some planned file is absent or
/// holds other bytes than the plan's content encodes to.
pub open spec fn spec_changed(dir: Seq<ArchiveFileV>, plan: Seq<SnapshotFileV>) -> bool {
    spec_stale(dir, plan).len() != 0 || exists|k: int|
        0 <= k < plan.len() && spec_dir_lookup(dir, plan[k].name) != Some(
            vstd::utf8::encode_utf8(plan[k].content),
        )
}

/// Decide whether a pass with this plan must commit.
pub fn plan_changes(dir: &Vec<ArchiveFile>, plan: &Vec<SnapshotFile>, stale: &Vec<String>) -> (r:
    bool)
    requires
        stale@.map_values(|s: String| s@) == spec_stale(dir_view(dir@), plan_view(plan@)),
    ensures
        r == spec_changed(dir_view(dir@), plan_view(plan@)),
{
    if stale.len() > 0 {
        return true;
    }
    let ghost dv = dir_view(dir@);
    let ghost pv = plan_view(plan@);
    let mut k: usize = 0;
    while k < plan.len()
        invariant
            dv == dir_view(dir@),
            pv == plan_view(plan@),
            k <= plan.len(),
            forall|m: int|
                0 <= m < k ==> spec_dir_lookup(dv, #[trigger] pv[m].name) == Some(
                    vstd::utf8::encode_utf8(pv[m].content),
                ),
        decreases plan.len() - k,
    {
        proof {
            assert(pv[k as int] == plan@[k as int]@);
        }
        match dir_lookup(dir, plan[k].name.as_str()) {
            None => {
                return true;
            },
            Some(content) => {
                let pb = plan[k].content.as_str().as_bytes_vec();
                if !crate::read::bytes_eq(content, &pb) {
                    return true;
                }
            },
        }
        k = k + 1;
    }
    false
}

/// What came of one write pass.
#[derive(Debug, PartialEq)]
pub struct SnapshotOutcome {
    pub committed: bool,
    pub pushed: bool,
}

/// Stage the plan, drop the stale files, and commit and push only when
/// the staged state differs from the head commit. Push failure is not a
/// failure of the pass: the local commit stands and the next successful
/// pass carries it along.
pub fn add_commit_push_if_changed(
    repo: &git2::Repository,
    plan: &Vec<SnapshotFile>,
    now_unix: i64,
) -> (r: Result<SnapshotOutcome, ArchiveError>)
    ensures
        match r {
            Ok(o) => o.pushed ==> o.committed,
            Err(_) => true,
        },
{
    let head = match crate::git::head_commit_id(repo) {
        Ok(Some(h)) => h,
        Ok(None) => {
            let msg = chars_vec("the repository has no head commit to write on");
            return Err(ArchiveError { message: string_from_chars(&msg) });
        },
        Err(e) => {
            return Err(e);
        },
    };
    let dir = match crate::git::commit_files(repo, &head) {
        Ok(d) => d,
        Err(e) => {
            return Err(e);
        },
    };
    let stale = stale_files(&dir, plan);
    let changed = plan_changes(&dir, plan, &stale);
    if !changed {
        return Ok(SnapshotOutcome { committed: false, pushed: false });
    }
    let mut i: usize = 0;
    while i < stale.len()
        decreases stale.len() - i,
    {
        match crate::git::unstage_file(repo, &stale[i]) {
            Ok(()) => {},
            Err(e) => {
                return Err(e);
            },
        }
        i = i + 1;
    }
    let mut j: usize = 0;
    while j < plan.len()
        decreases plan.len() - j,
    {
        match crate::git::stage_snapshot_file(repo, &plan[j].name, &plan[j].content) {
            Ok(()) => {},
            Err(e) => {
                return Err(e);
            },
        }
        j = j + 1;
    }
    match crate::git::commit_staged(repo, now_unix) {
        Ok(()) => {},
        Err(e) => {
            return Err(e);
        },
    }
    let pushed = match crate::git::push_origin(repo) {
        Ok(()) => true,
        Err(_) => false,
    };
    Ok(SnapshotOutcome { committed: true, pushed })
}

/// Write the current entity set as a snapshot: one file per entity, stale
/// archive files dropped, one commit at most.
pub fn write_and_commit_properties(
    repo: &git2::Repository,
    properties: &Vec<Property>,
    now_unix: i64,
) -> (r: Result<SnapshotOutcome, ArchiveError>)
    ensures
        match r {
            Ok(o) => o.pushed ==> o.committed,
            Err(_) => true,
        },
{
    let plan = snapshot_plan(properties);
    add_commit_push_if_changed(repo, &plan, now_unix)
}

/// The files of the head commit that a pass leaves untouched: everything
/// outside the archive directory.
pub open spec fn spec_keep_other(dir: Seq<ArchiveFileV>) -> Seq<ArchiveFileV>
    decreases dir.len(),
{
    if dir.len() == 0 {
        Seq::empty()
    } else {
        let rest = spec_keep_other(dir.drop_first());
        if spec_under_archive(dir[0].path) {
            rest
        } else {
            seq![dir[0]] + rest
        }
    }
}

/// A plan's files as a directory listing: the bytes a planned text is
/// written as.
pub open spec fn spec_plan_files(plan: Seq<SnapshotFileV>) -> Seq<ArchiveFileV> {
    plan.map_values(
        |f: SnapshotFileV|
            ArchiveFileV { path: f.name, content: vstd::utf8::encode_utf8(f.content) },
    )
}

/// What the head commit's tree holds after a pass, as a listing: the
/// untouched files and then the planned ones. Only the name-to-content
/// mapping matters; the listing order carries no meaning.
pub open spec fn spec_after_write(dir: Seq<ArchiveFileV>, plan: Seq<SnapshotFileV>) -> Seq<
    ArchiveFileV,
> {
    spec_keep_other(dir) + spec_plan_files(plan)
}

/// Looking up in a split listing reads the left part first.
proof fn lemma_lookup_concat(a: Seq<ArchiveFileV>, b: Seq<ArchiveFileV>, name: Seq<char>)
    ensures
        spec_dir_lookup(a + b, name) == match spec_dir_lookup(a, name) {
            Some(c) => Some(c),
            None => spec_dir_lookup(b, name),
        },
    decreases a.len(),
{
    if a.len() == 0 {
        assert(a + b =~= b);
    } else {
        assert((a + b)[0] == a[0]);
        assert((a + b).drop_first() =~= a.drop_first() + b);
        lemma_lookup_concat(a.drop_first(), b, name);
    }
}

/// A name carried by no file is found nowhere.
proof fn lemma_lookup_absent(d: Seq<ArchiveFileV>, name: Seq<char>)
    requires
        forall|j: int| 0 <= j < d.len() ==> #[trigger] d[j].path != name,
    ensures
        spec_dir_lookup(d, name) is None,
    decreases d.len(),
{
    if d.len() > 0 {
        lemma_lookup_absent(d.drop_first(), name);
    }
}

/// Nothing the pass keeps lies under the archive directory.
proof fn lemma_keep_other_outside(dir: Seq<ArchiveFileV>)
    ensures
        forall|j: int|
            0 <= j < spec_keep_other(dir).len() ==> !spec_under_archive(
                #[trigger] spec_keep_other(dir)[j].path,
            ),
    decreases dir.len(),
{
    if dir.len() > 0 {
        lemma_keep_other_outside(dir.drop_first());
        let rest = spec_keep_other(dir.drop_first());
        if spec_under_archive(dir[0].path) {
            assert(spec_keep_other(dir) == rest);
        } else {
            assert(spec_keep_other(dir) == seq![dir[0]] + rest);
            assert(forall|j: int|
                0 <= j < spec_keep_other(dir).len() ==> #[trigger] spec_keep_other(dir)[j] == if j
                    == 0 {
                    dir[0]
                } else {
                    rest[j - 1]
                });
        }
    }
}

/// With every name written once, each planned file is found with its own
/// content.
proof fn lemma_plan_lookup(plan: Seq<SnapshotFileV>, k: int)
    requires
        0 <= k < plan.len(),
        forall|i: int, j: int| 0 <= i < j < plan.len() ==> plan[i].name != plan[j].name,
    ensures
        spec_dir_lookup(spec_plan_files(plan), plan[k].name) == Some(
            vstd::utf8::encode_utf8(plan[k].content),
        ),
    decreases k,
{
    let pf = spec_plan_files(plan);
    assert(pf[0].path == plan[0].name);
    if k == 0 {
    } else {
        assert(plan[0].name != plan[k].name);
        assert(pf.drop_first() =~= spec_plan_files(plan.drop_first()));
        lemma_plan_lookup(plan.drop_first(), k - 1);
    }
}

/// A listing in which no file is stale yields an empty stale set.
proof fn lemma_stale_none(d: Seq<ArchiveFileV>, plan: Seq<SnapshotFileV>)
    requires
        forall|j: int|
            0 <= j < d.len() ==> !(spec_under_archive(#[trigger] d[j].path) && !spec_plan_has_name(
                plan,
                d[j].path,
            )),
    ensures
        spec_stale(d, plan).len() == 0,
    decreases d.len(),
{
    if d.len() > 0 {
        lemma_stale_none(d.drop_first(), plan);
    }
}

/// Idempotence of the write pass: once a pass with a plan has run, a
/// second pass with the same plan finds nothing stale and every file in
/// place, so it stages no change and makes no commit. The plan must lie
/// under the archive directory and write each name once, as every plan
/// of a well-formed entity set does.
pub proof fn lemma_write_idempotent(dir: Seq<ArchiveFileV>, plan: Seq<SnapshotFileV>)
    requires
        forall|k: int| 0 <= k < plan.len() ==> spec_under_archive(#[trigger] plan[k].name),
        forall|i: int, j: int| 0 <= i < j < plan.len() ==> plan[i].name != plan[j].name,
    ensures
        !spec_changed(spec_after_write(dir, plan), plan),
{
    let keep = spec_keep_other(dir);
    let pf = spec_plan_files(plan);
    let d2 = spec_after_write(dir, plan);
    lemma_keep_other_outside(dir);

    // every planned file is found with its own content
    assert(forall|k: int|
        0 <= k < plan.len() ==> spec_dir_lookup(d2, #[trigger] plan[k].name) == Some(
            vstd::utf8::encode_utf8(plan[k].content),
        )) by {
        assert forall|k: int| 0 <= k < plan.len() implies spec_dir_lookup(
            d2,
            #[trigger] plan[k].name,
        ) == Some(vstd::utf8::encode_utf8(plan[k].content)) by {
            assert(forall|j: int| 0 <= j < keep.len() ==> #[trigger] keep[j].path != plan[k].name)
                by {
                assert(spec_under_archive(plan[k].name));
            }
            lemma_lookup_absent(keep, plan[k].name);
            lemma_lookup_concat(keep, pf, plan[k].name);
            lemma_plan_lookup(plan, k);
        }
    }

    // nothing in the resulting listing is stale
    assert(spec_stale(d2, plan).len() == 0) by {
        assert(forall|j: int|
            0 <= j < d2.len() ==> !(spec_under_archive(#[trigger] d2[j].path)
                && !spec_plan_has_name(plan, d2[j].path))) by {
            assert forall|j: int| 0 <= j < d2.len() implies !(spec_under_archive(
                #[trigger] d2[j].path,
            ) && !spec_plan_has_name(plan, d2[j].path)) by {
                if j < keep.len() {
                    assert(d2[j] == keep[j]);
                } else {
                    assert(d2[j] == pf[j - keep.len()]);
                    assert(pf[j - keep.len()].path == plan[j - keep.len()].name);
                    assert(spec_plan_has_name(plan, d2[j].path));
                }
            }
        }
        lemma_stale_none(d2, plan);
    }
}

/// One entity's file lies under the archive directory.
proof fn lemma_snapshot_file_under_archive(p: PropertyV)
    ensures
        spec_under_archive(spec_snapshot_file(p).name),
{
    reveal_strlit("vacant/");
    reveal_strlit("vacant");
    let name = spec_snapshot_file(p).name;
    assert(forall|i: int| 0 <= i < 7 ==> name[i] == "vacant/"@[i]);
    assert(name.len() >= 7);
    assert(name.subrange(0, 6) =~= "vacant"@);
}

/// Entering a file keeps every planned name distinct, and keeps every
/// planned name under the archive directory when the new one is.
proof fn lemma_plan_upsert_wf(plan: Seq<SnapshotFileV>, f: SnapshotFileV)
    requires
        forall|i: int, j: int| 0 <= i < j < plan.len() ==> plan[i].name != plan[j].name,
        forall|k: int| 0 <= k < plan.len() ==> spec_under_archive(#[trigger] plan[k].name),
        spec_under_archive(f.name),
    ensures
        forall|i: int, j: int|
            0 <= i < j < spec_plan_upsert(plan, f).len() ==> spec_plan_upsert(plan, f)[i].name
                != spec_plan_upsert(plan, f)[j].name,
        forall|k: int|
            0 <= k < spec_plan_upsert(plan, f).len() ==> spec_under_archive(
                #[trigger] spec_plan_upsert(plan, f)[k].name,
            ),
        spec_plan_upsert(plan, f).len() >= plan.len(),
        forall|k: int|
            0 <= k < spec_plan_upsert(plan, f).len() ==> (#[trigger] spec_plan_upsert(plan, f)[k].name
                == f.name) || exists|m: int|
                0 <= m < plan.len() && spec_plan_upsert(plan, f)[k].name == plan[m].name,
    decreases plan.len(),
{
    let r = spec_plan_upsert(plan, f);
    if plan.len() == 0 {
    } else if plan[0].name == f.name {
        assert(forall|j: int| 1 <= j < r.len() ==> r[j] == plan[j]);
        assert(forall|j: int| 1 <= j < r.len() ==> r[j].name != f.name);
    } else {
        assert(forall|i: int, j: int|
            0 <= i < j < plan.drop_first().len() ==> plan.drop_first()[i] == plan[i + 1]
                && plan.drop_first()[j] == plan[j + 1]);
        lemma_plan_upsert_wf(plan.drop_first(), f);
        let rr = spec_plan_upsert(plan.drop_first(), f);
        assert(r[0] == plan[0]);
        assert(forall|j: int| 1 <= j < r.len() ==> r[j] == rr[j - 1]);
        assert forall|i: int, j: int| 0 <= i < j < r.len() implies r[i].name != r[j].name by {
            if i == 0 {
                if rr[j - 1].name == f.name {
                    assert(plan[0].name != f.name);
                } else {
                    let m = choose|m: int|
                        0 <= m < plan.drop_first().len() && rr[j - 1].name == plan.drop_first()[m].name;
                    assert(plan.drop_first()[m] == plan[m + 1]);
                    assert(plan[0].name != plan[m + 1].name);
                }
            } else {
                assert(rr[i - 1].name != rr[j - 1].name);
            }
        }
        assert forall|k: int| 0 <= k < r.len() implies (#[trigger] r[k].name == f.name) || exists|
            m: int,
        | 0 <= m < plan.len() && r[k].name == plan[m].name by {
            if k > 0 {
                if rr[k - 1].name != f.name {
                    let m = choose|m: int|
                        0 <= m < plan.drop_first().len() && rr[k - 1].name == plan.drop_first()[m].name;
                    assert(plan.drop_first()[m] == plan[m + 1]);
                }
            }
        }
    }
}

/// The plan of any entity set writes each name once, and only under the
/// archive directory.
proof fn lemma_snapshot_plan_from_wf(plan: Seq<SnapshotFileV>, ps: Seq<PropertyV>, k: int)
    requires
        forall|i: int, j: int| 0 <= i < j < plan.len() ==> plan[i].name != plan[j].name,
        forall|m: int| 0 <= m < plan.len() ==> spec_under_archive(#[trigger] plan[m].name),
    ensures
        forall|i: int, j: int|
            0 <= i < j < spec_snapshot_plan_from(plan, ps, k).len() ==> spec_snapshot_plan_from(
                plan,
                ps,
                k,
            )[i].name != spec_snapshot_plan_from(plan, ps, k)[j].name,
        forall|m: int|
            0 <= m < spec_snapshot_plan_from(plan, ps, k).len() ==> spec_under_archive(
                #[trigger] spec_snapshot_plan_from(plan, ps, k)[m].name,
            ),
    decreases ps.len() - k,
{
    if 0 <= k < ps.len() {
        lemma_snapshot_file_under_archive(ps[k]);
        lemma_plan_upsert_wf(plan, spec_snapshot_file(ps[k]));
        let stepped = spec_plan_upsert(plan, spec_snapshot_file(ps[k]));
        lemma_snapshot_plan_from_wf(stepped, ps, k + 1);
        assert(spec_snapshot_plan_from(plan, ps, k) == spec_snapshot_plan_from(stepped, ps, k + 1));
    } else {
        assert(spec_snapshot_plan_from(plan, ps, k) == plan);
    }
}

/// Idempotence over whole entity sets: once a snapshot of a set has been
/// written, writing the same set again finds nothing stale and every
/// file in place, so it stages no change and makes no commit.
pub proof fn lemma_snapshot_idempotent(dir: Seq<ArchiveFileV>, ps: Seq<PropertyV>)
    ensures
        !spec_changed(spec_after_write(dir, spec_snapshot_plan(ps)), spec_snapshot_plan(ps)),
{
    let plan = spec_snapshot_plan(ps);
    lemma_snapshot_plan_from_wf(Seq::empty(), ps, 0);
    lemma_write_idempotent(dir, plan);
}

} // verus!
