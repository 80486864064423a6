//! History reconstruction and aggregation.
//!
//! The records a commit walk yields are folded into a strictly ordered list
//! of time points, one per commit, each holding the entities decoded from
//! that commit's archive files. The list is downsampled so that recent
//! history stays dense and old history sparse, and each surviving entity
//! becomes one named, coloured series aligned to the surviving timestamps.
//! The whole pipeline is a function of the records alone: the same records
//! and the same query always yield the same chart.

use vstd::prelude::*;

use crate::codec::spec_decode;
use crate::model::{Property, PropertyTypeV, PropertyV};

verus! {

/// One archive file of one commit: its path from the repository root and
/// its raw bytes.
#[derive(Debug, PartialEq)]
pub struct ArchiveFile {
    pub path: String,
    pub content: Vec<u8>,
}

/// Spec-level value of an `ArchiveFile`.
pub struct ArchiveFileV {
    pub path: Seq<char>,
    pub content: Seq<u8>,
}

impl View for ArchiveFile {
    type V = ArchiveFileV;

    open spec fn view(&self) -> ArchiveFileV {
        ArchiveFileV { path: self.path@, content: self.content@ }
    }
}

/// Everything the chart needs from one commit: its identity, its author
/// time, and its archive files.
#[derive(Debug, PartialEq)]
pub struct CommitRecord {
    pub id: Vec<u8>,
    pub seconds: i64,
    pub offset_minutes: i32,
    pub files: Vec<ArchiveFile>,
}

/// Spec-level value of a `CommitRecord`.
pub struct CommitRecordV {
    pub id: Seq<u8>,
    pub seconds: i64,
    pub offset_minutes: i32,
    pub files: Seq<ArchiveFileV>,
}

impl View for CommitRecord {
    type V = CommitRecordV;

    open spec fn view(&self) -> CommitRecordV {
        CommitRecordV {
            id: self.id@,
            seconds: self.seconds,
            offset_minutes: self.offset_minutes,
            files: self.files@.map_values(|f: ArchiveFile| f@),
        }
    }
}

/// One entity observed at one time point.
#[derive(Debug, PartialEq)]
pub struct Entry {
    pub entity_id: u32,
    pub entity: Property,
}

/// Spec-level value of an `Entry`.
pub struct EntryV {
    pub entity_id: u32,
    pub entity: PropertyV,
}

impl View for Entry {
    type V = EntryV;

    open spec fn view(&self) -> EntryV {
        EntryV { entity_id: self.entity_id, entity: self.entity@ }
    }
}

/// One time point: a (timestamp, commit id) key and the entities seen
/// there. Same-second commits stay distinct points.
#[derive(Debug, PartialEq)]
pub struct Point {
    pub timestamp: i64,
    pub commit: Vec<u8>,
    pub entries: Vec<Entry>,
}

/// Spec-level value of a `Point`.
pub struct PointV {
    pub timestamp: i64,
    pub commit: Seq<u8>,
    pub entries: Seq<EntryV>,
}

impl View for Point {
    type V = PointV;

    open spec fn view(&self) -> PointV {
        PointV {
            timestamp: self.timestamp,
            commit: self.commit@,
            entries: self.entries@.map_values(|e: Entry| e@),
        }
    }
}

/// One entity's aligned value sequence across the surviving time points.
#[derive(Debug, PartialEq)]
pub struct Series {
    pub name: String,
    pub color: String,
    pub data: Vec<Option<u32>>,
}

/// Spec-level value of a `Series`.
pub struct SeriesV {
    pub name: Seq<char>,
    pub color: Seq<char>,
    pub data: Seq<Option<u32>>,
}

impl View for Series {
    type V = SeriesV;

    open spec fn view(&self) -> SeriesV {
        SeriesV { name: self.name@, color: self.color@, data: self.data@ }
    }
}

/// The chart payload: surviving timestamps and one series per surviving
/// entity.
#[derive(Debug, PartialEq)]
pub struct Chart {
    pub categories: Vec<i64>,
    pub series: Vec<Series>,
}

/// Spec-level value of a `Chart`.
pub struct ChartV {
    pub categories: Seq<i64>,
    pub series: Seq<SeriesV>,
}

impl View for Chart {
    type V = ChartV;

    open spec fn view(&self) -> ChartV {
        ChartV {
            categories: self.categories@,
            series: self.series@.map_values(|s: Series| s@),
        }
    }
}

/// The one query parameter: an optional ceiling on an entity's latest
/// queue position.
#[derive(Debug, PartialEq)]
pub struct QueueHistoryQuery {
    pub max: Option<u32>,
}

impl Default for QueueHistoryQuery {
    /// The default query puts no ceiling on queue positions.
    fn default() -> (r: QueueHistoryQuery)
        ensures
            r.max is None,
    {
        QueueHistoryQuery { max: None }
    }
}

/// How old history is thinned: points older than `cutoff` go entirely;
/// of the rest, one in `stride` is kept by index, and the last `tail`
/// indices are always kept.
#[derive(Debug, PartialEq)]
pub struct RetentionPolicy {
    pub cutoff: i64,
    pub stride: usize,
    pub tail: usize,
}

/// Lexicographic order on byte strings.
pub open spec fn spec_bytes_lt(a: Seq<u8>, b: Seq<u8>) -> bool
    decreases a.len(),
{
    if b.len() == 0 {
        false
    } else if a.len() == 0 {
        true
    } else if a[0] < b[0] {
        true
    } else if a[0] > b[0] {
        false
    } else {
        spec_bytes_lt(a.drop_first(), b.drop_first())
    }
}

/// Compare two byte strings lexicographically.
pub fn bytes_lt(a: &Vec<u8>, b: &Vec<u8>) -> (r: bool)
    ensures
        r == spec_bytes_lt(a@, b@),
{
    proof {
        assert(a@.subrange(0, a@.len() as int) =~= a@);
        assert(b@.subrange(0, b@.len() as int) =~= b@);
    }
    let mut k: usize = 0;
    loop
        invariant
            k <= a.len(),
            k <= b.len(),
            forall|m: int| 0 <= m < k ==> a@[m] == b@[m],
            spec_bytes_lt(a@, b@) == spec_bytes_lt(a@.subrange(k as int, a@.len() as int), b@.subrange(k as int, b@.len() as int)),
        decreases a.len() - k,
    {
        if k >= b.len() {
            proof {
                assert(b@.subrange(k as int, b@.len() as int).len() == 0);
            }
            return false;
        }
        if k >= a.len() {
            proof {
                assert(a@.subrange(k as int, a@.len() as int).len() == 0);
                assert(b@.subrange(k as int, b@.len() as int).len() > 0);
            }
            return true;
        }
        let x = a[k];
        let y = b[k];
        proof {
            let sa = a@.subrange(k as int, a@.len() as int);
            let sb = b@.subrange(k as int, b@.len() as int);
            assert(sa[0] == a@[k as int]);
            assert(sb[0] == b@[k as int]);
            assert(sa.drop_first() =~= a@.subrange(k + 1 as int, a@.len() as int));
            assert(sb.drop_first() =~= b@.subrange(k + 1 as int, b@.len() as int));
        }
        if x < y {
            return true;
        }
        if x > y {
            return false;
        }
        k = k + 1;
    }
}

/// Byte-string equality.
pub fn bytes_eq(a: &Vec<u8>, b: &Vec<u8>) -> (r: bool)
    ensures
        r == (a@ == b@),
{
    if a.len() != b.len() {
        proof {
            assert(a@ != b@);
        }
        return false;
    }
    let mut k: usize = 0;
    while k < a.len()
        invariant
            k <= a.len(),
            a.len() == b.len(),
            forall|m: int| 0 <= m < k ==> a@[m] == b@[m],
        decreases a.len() - k,
    {
        if a[k] != b[k] {
            proof {
                assert(a@[k as int] != b@[k as int]);
            }
            return false;
        }
        k = k + 1;
    }
    proof {
        assert(a@ =~= b@);
    }
    true
}

/// Strict order on time-point keys: by timestamp, then by commit id, so
/// that same-second commits never collapse.
pub open spec fn spec_key_lt(t1: i64, c1: Seq<u8>, t2: i64, c2: Seq<u8>) -> bool {
    t1 < t2 || (t1 == t2 && spec_bytes_lt(c1, c2))
}

/// Replace the first entry with this id, or append a new one.
pub open spec fn spec_upsert(es: Seq<EntryV>, id: u32, p: PropertyV) -> Seq<EntryV>
    decreases es.len(),
{
    if es.len() == 0 {
        seq![EntryV { entity_id: id, entity: p }]
    } else if es[0].entity_id == id {
        seq![EntryV { entity_id: id, entity: p }] + es.drop_first()
    } else {
        seq![es[0]] + spec_upsert(es.drop_first(), id, p)
    }
}

/// A found match at `k` makes the upsert an update in place.
proof fn lemma_upsert_at(es: Seq<EntryV>, id: u32, p: PropertyV, k: int)
    requires
        0 <= k < es.len(),
        forall|m: int| 0 <= m < k ==> es[m].entity_id != id,
        es[k].entity_id == id,
    ensures
        spec_upsert(es, id, p) == es.update(k, EntryV { entity_id: id, entity: p }),
    decreases k,
{
    if k == 0 {
        assert(spec_upsert(es, id, p) =~= es.update(0, EntryV { entity_id: id, entity: p }));
    } else {
        lemma_upsert_at(es.drop_first(), id, p, k - 1);
        assert(es.drop_first().update(k - 1, EntryV { entity_id: id, entity: p }) =~= es.update(
            k,
            EntryV { entity_id: id, entity: p },
        ).drop_first());
        assert(spec_upsert(es, id, p) =~= es.update(k, EntryV { entity_id: id, entity: p }));
    }
}

/// No match anywhere makes the upsert an append.
proof fn lemma_upsert_absent(es: Seq<EntryV>, id: u32, p: PropertyV)
    requires
        forall|m: int| 0 <= m < es.len() ==> es[m].entity_id != id,
    ensures
        spec_upsert(es, id, p) == es.push(EntryV { entity_id: id, entity: p }),
    decreases es.len(),
{
    if es.len() == 0 {
        assert(spec_upsert(es, id, p) =~= es.push(EntryV { entity_id: id, entity: p }));
    } else {
        lemma_upsert_absent(es.drop_first(), id, p);
        assert(es.drop_first().push(EntryV { entity_id: id, entity: p }) =~= es.push(
            EntryV { entity_id: id, entity: p },
        ).drop_first());
        assert(spec_upsert(es, id, p) =~= es.push(EntryV { entity_id: id, entity: p }));
    }
}

/// Replace the first entry carrying this id, or append one: the last write
/// for an id within one commit wins.
pub fn upsert(es: &mut Vec<Entry>, id: u32, p: Property)
    ensures
        final(es)@.map_values(|e: Entry| e@) == spec_upsert(
            old(es)@.map_values(|e: Entry| e@),
            id,
            p@,
        ),
{
    let ghost es0 = es@.map_values(|e: Entry| e@);
    proof {
        assert(es0 == old(es)@.map_values(|e: Entry| e@));
    }
    let mut k: usize = 0;
    while k < es.len()
        invariant
            es0 == old(es)@.map_values(|e: Entry| e@),
            k <= es.len(),
            es@.map_values(|e: Entry| e@) == es0,
            forall|m: int| 0 <= m < k ==> es0[m].entity_id != id,
        decreases es.len() - k,
    {
        if es[k].entity_id == id {
            proof {
                assert(es0[k as int].entity_id == id);
                lemma_upsert_at(es0, id, p@, k as int);
            }
            let e = Entry { entity_id: id, entity: p };
            es.set(k, e);
            proof {
                assert(es@.map_values(|e: Entry| e@) =~= es0.update(
                    k as int,
                    EntryV { entity_id: id, entity: p@ },
                ));
                assert(es@.map_values(|e: Entry| e@) == spec_upsert(es0, id, p@));
            }
            return ;
        }
        proof {
            assert(es0[k as int].entity_id != id);
        }
        k = k + 1;
    }
    proof {
        lemma_upsert_absent(es0, id, p@);
    }
    es.push(Entry { entity_id: id, entity: p });
    proof {
        assert(es@.map_values(|e: Entry| e@) =~= es0.push(
            EntryV { entity_id: id, entity: p@ },
        ));
    }
}

/// The entity an id maps to at one point, if it was seen there.
pub open spec fn spec_lookup(es: Seq<EntryV>, id: u32) -> Option<PropertyV>
    decreases es.len(),
{
    if es.len() == 0 {
        None
    } else if es[0].entity_id == id {
        Some(es[0].entity)
    } else {
        spec_lookup(es.drop_first(), id)
    }
}

/// Find the entity an id maps to at one point.
pub fn lookup<'a>(es: &'a Vec<Entry>, id: u32) -> (r: Option<&'a Property>)
    ensures
        match r {
            Some(p) => spec_lookup(es@.map_values(|e: Entry| e@), id) == Some(p@),
            None => spec_lookup(es@.map_values(|e: Entry| e@), id) is None,
        },
{
    let ghost es0 = es@.map_values(|e: Entry| e@);
    proof {
        assert(es0.subrange(0, es0.len() as int) =~= es0);
    }
    let mut k: usize = 0;
    while k < es.len()
        invariant
            k <= es.len(),
            es0 == es@.map_values(|e: Entry| e@),
            spec_lookup(es0, id) == spec_lookup(es0.subrange(k as int, es0.len() as int), id),
        decreases es.len() - k,
    {
        proof {
            let suf = es0.subrange(k as int, es0.len() as int);
            assert(suf[0] == es0[k as int]);
            assert(suf.drop_first() =~= es0.subrange(k + 1 as int, es0.len() as int));
        }
        if es[k].entity_id == id {
            return Some(&es[k].entity);
        }
        k = k + 1;
    }
    proof {
        assert(es0.subrange(k as int, es0.len() as int).len() == 0);
    }
    None
}

/// A byte string never orders below itself.
proof fn lemma_bytes_lt_irrefl(a: Seq<u8>)
    ensures
        !spec_bytes_lt(a, a),
    decreases a.len(),
{
    if a.len() > 0 {
        lemma_bytes_lt_irrefl(a.drop_first());
    }
}

/// The byte-string order runs one way only.
proof fn lemma_bytes_lt_asym(a: Seq<u8>, b: Seq<u8>)
    requires
        spec_bytes_lt(a, b),
    ensures
        !spec_bytes_lt(b, a),
    decreases a.len(),
{
    if a.len() > 0 && b.len() > 0 && a[0] == b[0] {
        lemma_bytes_lt_asym(a.drop_first(), b.drop_first());
    }
}

/// Two distinct byte strings always order one way or the other.
proof fn lemma_bytes_lt_connex(a: Seq<u8>, b: Seq<u8>)
    requires
        a != b,
    ensures
        spec_bytes_lt(a, b) || spec_bytes_lt(b, a),
    decreases a.len(),
{
    if a.len() == 0 {
        if b.len() == 0 {
            assert(a =~= b);
        }
    } else if b.len() == 0 {
    } else if a[0] == b[0] {
        assert(a.drop_first() != b.drop_first()) by {
            if a.drop_first() == b.drop_first() {
                assert(a.drop_first().len() == b.drop_first().len());
                assert(a.len() == b.len());
                assert(forall|i: int| 1 <= i < a.len() ==> a[i] == a.drop_first()[i - 1]);
                assert(forall|i: int| 1 <= i < b.len() ==> b[i] == b.drop_first()[i - 1]);
                assert(a =~= b);
            }
        }
        lemma_bytes_lt_connex(a.drop_first(), b.drop_first());
    }
}

/// Fold one decoded entity into the ordered point list: the point with
/// this key gains the entity, or a new point takes its ordered place.
pub open spec fn spec_point_upsert(
    pts: Seq<PointV>,
    t: i64,
    c: Seq<u8>,
    id: u32,
    p: PropertyV,
) -> Seq<PointV>
    decreases pts.len(),
{
    if pts.len() == 0 {
        seq![
            PointV {
                timestamp: t,
                commit: c,
                entries: seq![EntryV { entity_id: id, entity: p }],
            },
        ]
    } else if t == pts[0].timestamp && c == pts[0].commit {
        seq![
            PointV { timestamp: t, commit: c, entries: spec_upsert(pts[0].entries, id, p) },
        ] + pts.drop_first()
    } else if spec_key_lt(t, c, pts[0].timestamp, pts[0].commit) {
        seq![
            PointV {
                timestamp: t,
                commit: c,
                entries: seq![EntryV { entity_id: id, entity: p }],
            },
        ] + pts
    } else {
        seq![pts[0]] + spec_point_upsert(pts.drop_first(), t, c, id, p)
    }
}

/// A key found at `k` makes the point upsert an update in place.
proof fn lemma_point_upsert_at(
    pts: Seq<PointV>,
    t: i64,
    c: Seq<u8>,
    id: u32,
    p: PropertyV,
    k: int,
)
    requires
        0 <= k < pts.len(),
        forall|m: int|
            0 <= m < k ==> spec_key_lt(#[trigger] pts[m].timestamp, pts[m].commit, t, c),
        pts[k].timestamp == t,
        pts[k].commit == c,
    ensures
        spec_point_upsert(pts, t, c, id, p) == pts.update(
            k,
            PointV { timestamp: t, commit: c, entries: spec_upsert(pts[k].entries, id, p) },
        ),
    decreases k,
{
    let np = PointV { timestamp: t, commit: c, entries: spec_upsert(pts[k].entries, id, p) };
    if k == 0 {
        assert(spec_point_upsert(pts, t, c, id, p) =~= pts.update(0, np));
    } else {
        assert(spec_key_lt(pts[0].timestamp, pts[0].commit, t, c));
        assert(!(t == pts[0].timestamp && c == pts[0].commit)) by {
            if t == pts[0].timestamp && c == pts[0].commit {
                lemma_bytes_lt_irrefl(c);
            }
        }
        assert(!spec_key_lt(t, c, pts[0].timestamp, pts[0].commit)) by {
            if spec_bytes_lt(pts[0].commit, c) {
                lemma_bytes_lt_asym(pts[0].commit, c);
            }
        }
        lemma_point_upsert_at(pts.drop_first(), t, c, id, p, k - 1);
        assert(pts.drop_first()[k - 1] == pts[k]);
        assert(pts.drop_first().update(k - 1, np) =~= pts.update(k, np).drop_first());
        assert(spec_point_upsert(pts, t, c, id, p) =~= pts.update(k, np));
    }
}

/// A key absent from the list makes the point upsert an ordered insert.
proof fn lemma_point_upsert_insert(
    pts: Seq<PointV>,
    t: i64,
    c: Seq<u8>,
    id: u32,
    p: PropertyV,
    k: int,
)
    requires
        0 <= k <= pts.len(),
        forall|m: int|
            0 <= m < k ==> spec_key_lt(#[trigger] pts[m].timestamp, pts[m].commit, t, c),
        k < pts.len() ==> !(pts[k].timestamp == t && pts[k].commit == c),
        k < pts.len() ==> spec_key_lt(t, c, pts[k].timestamp, pts[k].commit),
    ensures
        spec_point_upsert(pts, t, c, id, p) == pts.insert(
            k,
            PointV {
                timestamp: t,
                commit: c,
                entries: seq![EntryV { entity_id: id, entity: p }],
            },
        ),
    decreases k,
{
    let np = PointV {
        timestamp: t,
        commit: c,
        entries: seq![EntryV { entity_id: id, entity: p }],
    };
    if k == 0 {
        if pts.len() == 0 {
            assert(spec_point_upsert(pts, t, c, id, p) =~= pts.insert(0, np));
        } else {
            assert(spec_point_upsert(pts, t, c, id, p) =~= pts.insert(0, np));
        }
    } else {
        assert(spec_key_lt(pts[0].timestamp, pts[0].commit, t, c));
        assert(!(t == pts[0].timestamp && c == pts[0].commit)) by {
            if t == pts[0].timestamp && c == pts[0].commit {
                lemma_bytes_lt_irrefl(c);
            }
        }
        assert(!spec_key_lt(t, c, pts[0].timestamp, pts[0].commit)) by {
            if spec_bytes_lt(pts[0].commit, c) {
                lemma_bytes_lt_asym(pts[0].commit, c);
            }
        }
        lemma_point_upsert_insert(pts.drop_first(), t, c, id, p, k - 1);
        assert(pts.drop_first().insert(k - 1, np) =~= pts.insert(k, np).drop_first());
        assert(pts.insert(k, np)[0] == pts[0]);
        assert(spec_point_upsert(pts, t, c, id, p) =~= pts.insert(k, np));
    }
}

/// Copy a byte string.
pub fn to_owned_bytes(v: &Vec<u8>) -> (r: Vec<u8>)
    ensures
        r@ == v@,
{
    let mut out: Vec<u8> = Vec::new();
    let mut k: usize = 0;
    while k < v.len()
        invariant
            k <= v.len(),
            out@ == v@.subrange(0, k as int),
        decreases v.len() - k,
    {
        out.push(v[k]);
        proof {
            assert(v@.subrange(0, k + 1 as int) =~= v@.subrange(0, k as int).push(v@[k as int]));
        }
        k = k + 1;
    }
    proof {
        assert(v@.subrange(0, v@.len() as int) =~= v@);
    }
    out
}

/// The spec-level value of a point list.
pub open spec fn points_view(pts: Seq<Point>) -> Seq<PointV> {
    pts.map_values(|pt: Point| pt@)
}

/// Fold one decoded entity into the ordered point list.
fn point_upsert(pts: &mut Vec<Point>, t: i64, commit: &Vec<u8>, id: u32, p: Property)
    ensures
        points_view(final(pts)@) == spec_point_upsert(points_view(old(pts)@), t, commit@, id, p@),
{
    let ghost pts0 = points_view(pts@);
    let mut k: usize = 0;
    while k < pts.len()
        invariant
            pts0 == points_view(old(pts)@),
            points_view(pts@) == pts0,
            k <= pts.len(),
            forall|m: int|
                0 <= m < k ==> spec_key_lt(#[trigger] pts0[m].timestamp, pts0[m].commit, t, commit@),
        decreases pts.len() - k,
    {
        let same_t = pts[k].timestamp == t;
        let eq_c = bytes_eq(&pts[k].commit, commit);
        if same_t && eq_c {
            proof {
                lemma_point_upsert_at(pts0, t, commit@, id, p@, k as int);
            }
            let mut pt = pts.remove(k);
            upsert(&mut pt.entries, id, p);
            pts.insert(k, pt);
            proof {
                assert(points_view(pts@) =~= pts0.update(
                    k as int,
                    PointV {
                        timestamp: t,
                        commit: commit@,
                        entries: spec_upsert(pts0[k as int].entries, id, p@),
                    },
                ));
            }
            return ;
        }
        let lt = if pts[k].timestamp < t {
            true
        } else if pts[k].timestamp == t {
            bytes_lt(&pts[k].commit, commit)
        } else {
            false
        };
        if !lt {
            proof {
                assert(pts0[k as int] == pts@[k as int]@);
                if pts0[k as int].timestamp == t {
                    lemma_bytes_lt_connex(pts0[k as int].commit, commit@);
                    assert(spec_bytes_lt(commit@, pts0[k as int].commit));
                } else {
                    assert(pts0[k as int].timestamp > t);
                }
                assert(spec_key_lt(t, commit@, pts0[k as int].timestamp, pts0[k as int].commit));
                lemma_point_upsert_insert(pts0, t, commit@, id, p@, k as int);
            }
            let mut es: Vec<Entry> = Vec::new();
            es.push(Entry { entity_id: id, entity: p });
            let np = Point { timestamp: t, commit: to_owned_bytes(commit), entries: es };
            proof {
                assert(np@.entries =~= seq![EntryV { entity_id: id, entity: p@ }]);
            }
            pts.insert(k, np);
            proof {
                assert(points_view(pts@) =~= pts0.insert(
                    k as int,
                    PointV {
                        timestamp: t,
                        commit: commit@,
                        entries: seq![EntryV { entity_id: id, entity: p@ }],
                    },
                ));
            }
            return ;
        }
        k = k + 1;
    }
    proof {
        lemma_point_upsert_insert(pts0, t, commit@, id, p@, pts0.len() as int);
    }
    let mut es: Vec<Entry> = Vec::new();
    es.push(Entry { entity_id: id, entity: p });
    let np = Point { timestamp: t, commit: to_owned_bytes(commit), entries: es };
    proof {
        assert(np@.entries =~= seq![EntryV { entity_id: id, entity: p@ }]);
    }
    let n = pts.len();
    pts.insert(n, np);
    proof {
        assert(points_view(pts@) =~= pts0.insert(
            pts0.len() as int,
            PointV {
                timestamp: t,
                commit: commit@,
                entries: seq![EntryV { entity_id: id, entity: p@ }],
            },
        ));
    }
}

/// Make the time point with this key exist: an observed commit is an
/// observation instant even before anything decodes at it.
pub open spec fn spec_point_touch(pts: Seq<PointV>, t: i64, c: Seq<u8>) -> Seq<PointV>
    decreases pts.len(),
{
    if pts.len() == 0 {
        seq![PointV { timestamp: t, commit: c, entries: Seq::empty() }]
    } else if t == pts[0].timestamp && c == pts[0].commit {
        pts
    } else if spec_key_lt(t, c, pts[0].timestamp, pts[0].commit) {
        seq![PointV { timestamp: t, commit: c, entries: Seq::empty() }] + pts
    } else {
        seq![pts[0]] + spec_point_touch(pts.drop_first(), t, c)
    }
}

/// A key already present leaves the touched list unchanged.
proof fn lemma_point_touch_at(pts: Seq<PointV>, t: i64, c: Seq<u8>, k: int)
    requires
        0 <= k < pts.len(),
        forall|m: int|
            0 <= m < k ==> spec_key_lt(#[trigger] pts[m].timestamp, pts[m].commit, t, c),
        pts[k].timestamp == t,
        pts[k].commit == c,
    ensures
        spec_point_touch(pts, t, c) == pts,
    decreases k,
{
    if k == 0 {
    } else {
        assert(spec_key_lt(pts[0].timestamp, pts[0].commit, t, c));
        assert(!(t == pts[0].timestamp && c == pts[0].commit)) by {
            if t == pts[0].timestamp && c == pts[0].commit {
                lemma_bytes_lt_irrefl(c);
            }
        }
        assert(!spec_key_lt(t, c, pts[0].timestamp, pts[0].commit)) by {
            if spec_bytes_lt(pts[0].commit, c) {
                lemma_bytes_lt_asym(pts[0].commit, c);
            }
        }
        lemma_point_touch_at(pts.drop_first(), t, c, k - 1);
        assert(spec_point_touch(pts, t, c) =~= pts);
    }
}

/// A key absent from the list makes the touch an ordered insert of an
/// empty point.
proof fn lemma_point_touch_insert(pts: Seq<PointV>, t: i64, c: Seq<u8>, k: int)
    requires
        0 <= k <= pts.len(),
        forall|m: int|
            0 <= m < k ==> spec_key_lt(#[trigger] pts[m].timestamp, pts[m].commit, t, c),
        k < pts.len() ==> !(pts[k].timestamp == t && pts[k].commit == c),
        k < pts.len() ==> spec_key_lt(t, c, pts[k].timestamp, pts[k].commit),
    ensures
        spec_point_touch(pts, t, c) == pts.insert(
            k,
            PointV { timestamp: t, commit: c, entries: Seq::empty() },
        ),
    decreases k,
{
    let np = PointV { timestamp: t, commit: c, entries: Seq::empty() };
    if k == 0 {
        if pts.len() == 0 {
            assert(spec_point_touch(pts, t, c) =~= pts.insert(0, np));
        } else {
            assert(spec_point_touch(pts, t, c) =~= pts.insert(0, np));
        }
    } else {
        assert(spec_key_lt(pts[0].timestamp, pts[0].commit, t, c));
        assert(!(t == pts[0].timestamp && c == pts[0].commit)) by {
            if t == pts[0].timestamp && c == pts[0].commit {
                lemma_bytes_lt_irrefl(c);
            }
        }
        assert(!spec_key_lt(t, c, pts[0].timestamp, pts[0].commit)) by {
            if spec_bytes_lt(pts[0].commit, c) {
                lemma_bytes_lt_asym(pts[0].commit, c);
            }
        }
        lemma_point_touch_insert(pts.drop_first(), t, c, k - 1);
        assert(pts.drop_first().insert(k - 1, np) =~= pts.insert(k, np).drop_first());
        assert(pts.insert(k, np)[0] == pts[0]);
        assert(spec_point_touch(pts, t, c) =~= pts.insert(k, np));
    }
}

/// Make the time point with this key exist.
fn point_touch(pts: &mut Vec<Point>, t: i64, commit: &Vec<u8>)
    ensures
        points_view(final(pts)@) == spec_point_touch(points_view(old(pts)@), t, commit@),
{
    let ghost pts0 = points_view(pts@);
    let mut k: usize = 0;
    while k < pts.len()
        invariant
            pts0 == points_view(old(pts)@),
            points_view(pts@) == pts0,
            k <= pts.len(),
            forall|m: int|
                0 <= m < k ==> spec_key_lt(#[trigger] pts0[m].timestamp, pts0[m].commit, t, commit@),
        decreases pts.len() - k,
    {
        let same_t = pts[k].timestamp == t;
        let eq_c = bytes_eq(&pts[k].commit, commit);
        if same_t && eq_c {
            proof {
                lemma_point_touch_at(pts0, t, commit@, k as int);
            }
            return ;
        }
        let lt = if pts[k].timestamp < t {
            true
        } else if pts[k].timestamp == t {
            bytes_lt(&pts[k].commit, commit)
        } else {
            false
        };
        if !lt {
            proof {
                assert(pts0[k as int] == pts@[k as int]@);
                if pts0[k as int].timestamp == t {
                    lemma_bytes_lt_connex(pts0[k as int].commit, commit@);
                    assert(spec_bytes_lt(commit@, pts0[k as int].commit));
                } else {
                    assert(pts0[k as int].timestamp > t);
                }
                assert(spec_key_lt(t, commit@, pts0[k as int].timestamp, pts0[k as int].commit));
                lemma_point_touch_insert(pts0, t, commit@, k as int);
            }
            let np = Point { timestamp: t, commit: to_owned_bytes(commit), entries: Vec::new() };
            proof {
                assert(np@.entries =~= Seq::<EntryV>::empty());
            }
            pts.insert(k, np);
            proof {
                assert(points_view(pts@) =~= pts0.insert(
                    k as int,
                    PointV { timestamp: t, commit: commit@, entries: Seq::empty() },
                ));
            }
            return ;
        }
        k = k + 1;
    }
    proof {
        lemma_point_touch_insert(pts0, t, commit@, pts0.len() as int);
    }
    let np = Point { timestamp: t, commit: to_owned_bytes(commit), entries: Vec::new() };
    proof {
        assert(np@.entries =~= Seq::<EntryV>::empty());
    }
    let n = pts.len();
    pts.insert(n, np);
    proof {
        assert(points_view(pts@) =~= pts0.insert(
            pts0.len() as int,
            PointV { timestamp: t, commit: commit@, entries: Seq::empty() },
        ));
    }
}

/// A commit's point in time: author seconds shifted by the author's UTC
/// offset, clamped at the ends of the representable range.
pub open spec fn spec_point_time(seconds: i64, offset_minutes: i32) -> i64 {
    let x = seconds + offset_minutes * 60;
    if x > i64::MAX {
        i64::MAX
    } else if x < i64::MIN {
        i64::MIN
    } else {
        x as i64
    }
}

/// Compute a commit's point in time.
pub fn point_time(seconds: i64, offset_minutes: i32) -> (r: i64)
    ensures
        r == spec_point_time(seconds, offset_minutes),
{
    let off: i64 = (offset_minutes as i64) * 60;
    match seconds.checked_add(off) {
        Some(v) => v,
        None => {
            if off > 0 {
                i64::MAX
            } else {
                i64::MIN
            }
        },
    }
}

/// Fold one file of one commit into the point list. Any file under the
/// archive directory makes its commit's time point exist, decodable or
/// not, as an observation instant; only a decoded entity of the one
/// chartable kind is then entered at that point. Files outside the
/// archive directory leave the list untouched.
pub open spec fn spec_add_file(pts: Seq<PointV>, t: i64, c: Seq<u8>, f: ArchiveFileV) -> Seq<
    PointV,
> {
    if !crate::codec::matches_at(f.path, 0, "vacant"@) {
        pts
    } else {
        let touched = spec_point_touch(pts, t, c);
        if !vstd::utf8::valid_utf8(f.content) {
            touched
        } else {
            match spec_decode(vstd::utf8::decode_utf8(f.content)) {
                None => touched,
                Some(e) => {
                    let p = crate::model::spec_entry_to_property(e);
                    if p.property_type is Apartment {
                        spec_point_upsert(touched, t, c, p.id, p)
                    } else {
                        touched
                    }
                },
            }
        }
    }
}

/// Fold the files of one commit, in order, from index `k` on.
pub open spec fn spec_add_files(
    pts: Seq<PointV>,
    t: i64,
    c: Seq<u8>,
    files: Seq<ArchiveFileV>,
    k: int,
) -> Seq<PointV>
    decreases files.len() - k,
{
    if k < 0 || k >= files.len() {
        pts
    } else {
        spec_add_files(spec_add_file(pts, t, c, files[k]), t, c, files, k + 1)
    }
}

/// Fold whole commit records into the point list, in order, from `j` on.
pub open spec fn spec_add_records(pts: Seq<PointV>, rs: Seq<CommitRecordV>, j: int) -> Seq<PointV>
    decreases rs.len() - j,
{
    if j < 0 || j >= rs.len() {
        pts
    } else {
        spec_add_records(
            spec_add_files(pts, spec_point_time(rs[j].seconds, rs[j].offset_minutes), rs[j].id, rs[j].files, 0),
            rs,
            j + 1,
        )
    }
}

/// The ordered point list that a record list denotes.
pub open spec fn spec_points(rs: Seq<CommitRecordV>) -> Seq<PointV> {
    spec_add_records(Seq::empty(), rs, 0)
}

/// The spec-level value of a record list.
pub open spec fn records_view(rs: Seq<CommitRecord>) -> Seq<CommitRecordV> {
    rs.map_values(|r: CommitRecord| r@)
}

/// Build the ordered point list from the records of a commit walk.
pub fn build_points(records: &Vec<CommitRecord>) -> (pts: Vec<Point>)
    ensures
        points_view(pts@) == spec_points(records_view(records@)),
{
    let ghost rs = records_view(records@);
    let mut pts: Vec<Point> = Vec::new();
    proof {
        assert(points_view(pts@) =~= Seq::<PointV>::empty());
    }
    let mut j: usize = 0;
    while j < records.len()
        invariant
            rs == records_view(records@),
            j <= records.len(),
            spec_points(rs) == spec_add_records(points_view(pts@), rs, j as int),
        decreases records.len() - j,
    {
        proof {
            assert(rs[j as int] == records@[j as int]@);
        }
        let t = point_time(records[j].seconds, records[j].offset_minutes);
        let mut k: usize = 0;
        while k < records[j].files.len()
            invariant
                rs == records_view(records@),
                j < records.len(),
                rs[j as int] == records@[j as int]@,
                t == spec_point_time(rs[j as int].seconds, rs[j as int].offset_minutes),
                k <= records@[j as int].files@.len(),
                spec_points(rs) == spec_add_records(
                    spec_add_files(
                        points_view(pts@),
                        t,
                        rs[j as int].id,
                        rs[j as int].files,
                        k as int,
                    ),
                    rs,
                    j + 1 as int,
                ),
            decreases records@[j as int].files@.len() - k,
        {
            let ghost fv = rs[j as int].files[k as int];
            let ghost pts_before = points_view(pts@);
            proof {
                assert(fv == records@[j as int].files@[k as int]@);
            }
            let path_chars = crate::text::chars_vec(records[j].files[k].path.as_str());
            let under_archive = match crate::codec::expect(&path_chars, 0, "vacant") {
                Some(_) => true,
                None => false,
            };
            if under_archive {
                point_touch(&mut pts, t, &records[j].id);
                match crate::text::utf8_to_string(&records[j].files[k].content) {
                    Some(text) => {
                        match crate::codec::decode(text.as_str()) {
                            Some(e) => {
                                let p = e.into_property();
                                if matches!(
                                    p.property_type,
                                    crate::model::PropertyType::Apartment,
                                ) {
                                    let pid = p.id;
                                    point_upsert(&mut pts, t, &records[j].id, pid, p);
                                }
                            },
                            None => {},
                        }
                    },
                    None => {},
                }
            }
            proof {
                assert(points_view(pts@) == spec_add_file(pts_before, t, rs[j as int].id, fv));
                assert(spec_add_files(pts_before, t, rs[j as int].id, rs[j as int].files, k as int)
                    == spec_add_files(
                    points_view(pts@),
                    t,
                    rs[j as int].id,
                    rs[j as int].files,
                    k + 1 as int,
                ));
            }
            k = k + 1;
        }
        j = j + 1;
    }
    pts
}

/// Whether the point at zero-based index `i` of `len` points survives:
/// it must lie at or after the cutoff, and its one-based index must be a
/// multiple of the stride or fall within the last `tail` indices.
pub open spec fn spec_keeps(
    cutoff: i64,
    stride: int,
    tail: int,
    i: int,
    len: int,
    t: i64,
) -> bool {
    t >= cutoff && ((i + 1) % stride == 0 || len - (i + 1) < tail)
}

/// The surviving points from index `i` on, in their original order.
pub open spec fn spec_retain_from(
    pts: Seq<PointV>,
    cutoff: i64,
    stride: int,
    tail: int,
    i: int,
) -> Seq<PointV>
    decreases pts.len() - i,
{
    if i < 0 || i >= pts.len() {
        Seq::empty()
    } else if spec_keeps(cutoff, stride, tail, i, pts.len() as int, pts[i].timestamp) {
        seq![pts[i]] + spec_retain_from(pts, cutoff, stride, tail, i + 1)
    } else {
        spec_retain_from(pts, cutoff, stride, tail, i + 1)
    }
}

/// The surviving points under a retention policy.
pub open spec fn spec_retain(pts: Seq<PointV>, policy: RetentionPolicy) -> Seq<PointV> {
    spec_retain_from(pts, policy.cutoff, policy.stride as int, policy.tail as int, 0)
}

/// Thin the point list: recent history stays dense, old history sparse,
/// and nothing in the most recent window is ever dropped.
pub fn retain(pts: Vec<Point>, policy: &RetentionPolicy) -> (kept: Vec<Point>)
    requires
        policy.stride >= 1,
    ensures
        points_view(kept@) == spec_retain(points_view(pts@), *policy),
{
    let ghost pts0 = points_view(pts@);
    let mut pts = pts;
    let len = pts.len();
    let mut out: Vec<Point> = Vec::new();
    let mut i: usize = 0;
    while i < len
        invariant
            policy.stride >= 1,
            i <= len,
            len == pts0.len(),
            points_view(pts@) == pts0.subrange(i as int, len as int),
            spec_retain(pts0, *policy) == points_view(out@) + spec_retain_from(
                pts0,
                policy.cutoff,
                policy.stride as int,
                policy.tail as int,
                i as int,
            ),
        decreases len - i,
    {
        proof {
            assert(points_view(pts@).len() == len - i);
            assert(pts@.len() == len - i);
            assert(points_view(pts@)[0] == pts@[0]@);
            assert(pts0.subrange(i as int, len as int)[0] == pts0[i as int]);
            assert(points_view(pts@.drop_first()) =~= points_view(pts@).drop_first());
            assert(points_view(pts@).drop_first() =~= pts0.subrange(i + 1 as int, len as int));
        }
        let pt = pts.remove(0);
        proof {
            assert(pt@ == pts0[i as int]);
        }
        let keep = pt.timestamp >= policy.cutoff && ((i + 1) % policy.stride == 0 || len - (i + 1)
            < policy.tail);
        let ghost out_before = points_view(out@);
        if keep {
            out.push(pt);
            proof {
                assert(points_view(out@) =~= out_before.push(pts0[i as int]));
                assert(out_before + (seq![pts0[i as int]] + spec_retain_from(
                    pts0,
                    policy.cutoff,
                    policy.stride as int,
                    policy.tail as int,
                    i + 1 as int,
                )) =~= points_view(out@) + spec_retain_from(
                    pts0,
                    policy.cutoff,
                    policy.stride as int,
                    policy.tail as int,
                    i + 1 as int,
                ));
            }
        }
        i = i + 1;
    }
    proof {
        assert(spec_retain_from(
            pts0,
            policy.cutoff,
            policy.stride as int,
            policy.tail as int,
            len as int,
        ) =~= Seq::<PointV>::empty());
        assert(points_view(out@) + Seq::<PointV>::empty() =~= points_view(out@));
    }
    out
}

/// An id joins the universe the first time it is seen.
pub open spec fn spec_push_id(ids: Seq<u32>, id: u32) -> Seq<u32> {
    if ids.contains(id) {
        ids
    } else {
        ids.push(id)
    }
}

/// Fold the ids of one point's entries into the universe, from `k` on.
pub open spec fn spec_ids_entries(ids: Seq<u32>, es: Seq<EntryV>, k: int) -> Seq<u32>
    decreases es.len() - k,
{
    if k < 0 || k >= es.len() {
        ids
    } else {
        spec_ids_entries(spec_push_id(ids, es[k].entity_id), es, k + 1)
    }
}

/// Fold the ids of every point into the universe, from `j` on.
pub open spec fn spec_ids_points(ids: Seq<u32>, pts: Seq<PointV>, j: int) -> Seq<u32>
    decreases pts.len() - j,
{
    if j < 0 || j >= pts.len() {
        ids
    } else {
        spec_ids_points(spec_ids_entries(ids, pts[j].entries, 0), pts, j + 1)
    }
}

/// The universe of entity ids ever observed, in order of first sighting.
pub open spec fn spec_ids(pts: Seq<PointV>) -> Seq<u32> {
    spec_ids_points(Seq::empty(), pts, 0)
}

/// Whether an id was already collected.
fn ids_contain(ids: &Vec<u32>, id: u32) -> (r: bool)
    ensures
        r == ids@.contains(id),
{
    let mut k: usize = 0;
    while k < ids.len()
        invariant
            k <= ids.len(),
            forall|m: int| 0 <= m < k ==> ids@[m] != id,
        decreases ids.len() - k,
    {
        if ids[k] == id {
            return true;
        }
        k = k + 1;
    }
    proof {
        if ids@.contains(id) {
            let w = choose|w: int| 0 <= w < ids@.len() && ids@[w] == id;
            assert(false);
        }
    }
    false
}

/// Collect the universe of entity ids, in order of first sighting.
pub fn collect_ids(pts: &Vec<Point>) -> (ids: Vec<u32>)
    ensures
        ids@ == spec_ids(points_view(pts@)),
{
    let ghost pv = points_view(pts@);
    let mut ids: Vec<u32> = Vec::new();
    let mut j: usize = 0;
    while j < pts.len()
        invariant
            pv == points_view(pts@),
            j <= pts.len(),
            spec_ids(pv) == spec_ids_points(ids@, pv, j as int),
        decreases pts.len() - j,
    {
        proof {
            assert(pv[j as int] == pts@[j as int]@);
        }
        let mut k: usize = 0;
        while k < pts[j].entries.len()
            invariant
                pv == points_view(pts@),
                j < pts.len(),
                pv[j as int] == pts@[j as int]@,
                k <= pts@[j as int].entries@.len(),
                spec_ids(pv) == spec_ids_points(
                    spec_ids_entries(ids@, pv[j as int].entries, k as int),
                    pv,
                    j + 1 as int,
                ),
            decreases pts@[j as int].entries@.len() - k,
        {
            let ghost ids_before = ids@;
            proof {
                assert(pv[j as int].entries[k as int] == pts@[j as int].entries@[k as int]@);
            }
            let id = pts[j].entries[k].entity_id;
            if !ids_contain(&ids, id) {
                ids.push(id);
            }
            proof {
                assert(ids@ == spec_push_id(ids_before, pv[j as int].entries[k as int].entity_id));
            }
            k = k + 1;
        }
        j = j + 1;
    }
    ids
}

/// The entity an id last showed at among the surviving points, if any.
pub open spec fn spec_latest(pts: Seq<PointV>, id: u32) -> Option<PropertyV>
    decreases pts.len(),
{
    if pts.len() == 0 {
        None
    } else {
        match spec_lookup(pts.last().entries, id) {
            Some(p) => Some(p),
            None => spec_latest(pts.drop_last(), id),
        }
    }
}

/// Find the entity an id last showed at among the surviving points.
pub fn latest<'a>(pts: &'a Vec<Point>, id: u32) -> (r: Option<&'a Property>)
    ensures
        match r {
            Some(p) => spec_latest(points_view(pts@), id) == Some(p@),
            None => spec_latest(points_view(pts@), id) is None,
        },
{
    let ghost pv = points_view(pts@);
    proof {
        assert(pv.subrange(0, pv.len() as int) =~= pv);
    }
    let mut j: usize = pts.len();
    while j > 0
        invariant
            pv == points_view(pts@),
            j <= pts.len(),
            spec_latest(pv, id) == spec_latest(pv.subrange(0, j as int), id),
        decreases j,
    {
        j = j - 1;
        proof {
            let pre = pv.subrange(0, j + 1 as int);
            assert(pre.last() == pv[j as int]);
            assert(pv[j as int] == pts@[j as int]@);
            assert(pre.drop_last() =~= pv.subrange(0, j as int));
        }
        match lookup(&pts[j].entries, id) {
            Some(p) => {
                return Some(p);
            },
            None => {},
        }
    }
    proof {
        assert(pv.subrange(0, 0) =~= Seq::<PointV>::empty());
    }
    None
}

/// How a surviving entity's series is labelled: area, description and
/// size, with a highlight mark when the entity is reserved.
pub open spec fn spec_series_name(p: PropertyV) -> Seq<char> {
    p.area + "; "@ + p.description + " ("@ + p.size_sqm + " kvm)"@ + (if p.reserved {
        " \u{2705}"@
    } else {
        Seq::empty()
    })
}

/// Build a surviving entity's label.
pub fn series_name(p: &Property) -> (r: String)
    ensures
        r@ == spec_series_name(p@),
{
    let mut out: Vec<char> = Vec::new();
    let mut area = crate::text::chars_vec(p.area.as_str());
    out.append(&mut area);
    crate::codec::push_lit(&mut out, "; ");
    let mut description = crate::text::chars_vec(p.description.as_str());
    out.append(&mut description);
    crate::codec::push_lit(&mut out, " (");
    let mut size = crate::text::chars_vec(p.size_sqm.as_str());
    out.append(&mut size);
    crate::codec::push_lit(&mut out, " kvm)");
    if p.reserved {
        crate::codec::push_lit(&mut out, " \u{2705}");
    }
    proof {
        assert(out@ =~= spec_series_name(p@));
    }
    crate::text::string_from_chars(&out)
}

/// The two-value palette: a highlight colour for reserved entities, a
/// muted one for the rest.
pub open spec fn spec_series_color(reserved: bool) -> Seq<char> {
    if reserved {
        "#ff000080"@
    } else {
        "#00000020"@
    }
}

/// The aligned value sequence of one id across the surviving points: an
/// explicit missing marker wherever the id is absent.
pub open spec fn spec_series_data(pts: Seq<PointV>, id: u32) -> Seq<Option<u32>> {
    pts.map_values(
        |pt: PointV|
            match spec_lookup(pt.entries, id) {
                Some(p) => p.queue_position.position,
                None => None,
            },
    )
}

/// Build the aligned value sequence of one id.
pub fn series_data(pts: &Vec<Point>, id: u32) -> (data: Vec<Option<u32>>)
    ensures
        data@ == spec_series_data(points_view(pts@), id),
{
    let ghost pv = points_view(pts@);
    let mut data: Vec<Option<u32>> = Vec::new();
    let mut k: usize = 0;
    while k < pts.len()
        invariant
            pv == points_view(pts@),
            k <= pts.len(),
            data@.len() == k,
            forall|m: int|
                0 <= m < k ==> data@[m] == match spec_lookup(#[trigger] pv[m].entries, id) {
                    Some(p) => p.queue_position.position,
                    None => None,
                },
        decreases pts.len() - k,
    {
        proof {
            assert(pv[k as int] == pts@[k as int]@);
        }
        match lookup(&pts[k].entries, id) {
            Some(p) => {
                data.push(p.queue_position.position);
            },
            None => {
                data.push(None);
            },
        }
        k = k + 1;
    }
    proof {
        assert(data@ =~= spec_series_data(pv, id));
    }
    data
}

/// Lexicographic order on character sequences, by code point.
pub open spec fn spec_chars_lt(a: Seq<char>, b: Seq<char>) -> bool
    decreases a.len(),
{
    if b.len() == 0 {
        false
    } else if a.len() == 0 {
        true
    } else if (a[0] as u32) < (b[0] as u32) {
        true
    } else if (a[0] as u32) > (b[0] as u32) {
        false
    } else {
        spec_chars_lt(a.drop_first(), b.drop_first())
    }
}

/// Compare two strings lexicographically by code point.
pub fn chars_lt(a: &Vec<char>, b: &Vec<char>) -> (r: bool)
    ensures
        r == spec_chars_lt(a@, b@),
{
    proof {
        assert(a@.subrange(0, a@.len() as int) =~= a@);
        assert(b@.subrange(0, b@.len() as int) =~= b@);
    }
    let mut k: usize = 0;
    loop
        invariant
            k <= a.len(),
            k <= b.len(),
            spec_chars_lt(a@, b@) == spec_chars_lt(
                a@.subrange(k as int, a@.len() as int),
                b@.subrange(k as int, b@.len() as int),
            ),
        decreases a.len() - k,
    {
        if k >= b.len() {
            proof {
                assert(b@.subrange(k as int, b@.len() as int).len() == 0);
            }
            return false;
        }
        if k >= a.len() {
            proof {
                assert(a@.subrange(k as int, a@.len() as int).len() == 0);
                assert(b@.subrange(k as int, b@.len() as int).len() > 0);
            }
            return true;
        }
        let x = a[k] as u32;
        let y = b[k] as u32;
        proof {
            let sa = a@.subrange(k as int, a@.len() as int);
            let sb = b@.subrange(k as int, b@.len() as int);
            assert(sa[0] == a@[k as int]);
            assert(sb[0] == b@[k as int]);
            assert(sa.drop_first() =~= a@.subrange(k + 1 as int, a@.len() as int));
            assert(sb.drop_first() =~= b@.subrange(k + 1 as int, b@.len() as int));
        }
        if x < y {
            return true;
        }
        if x > y {
            return false;
        }
        k = k + 1;
    }
}

/// Order on optional values: absence orders below every value.
pub open spec fn spec_opt_lt(a: Option<u32>, b: Option<u32>) -> bool {
    match (a, b) {
        (None, Some(_)) => true,
        (Some(x), Some(y)) => x < y,
        _ => false,
    }
}

/// Lexicographic order on aligned value sequences.
pub open spec fn spec_data_lt(a: Seq<Option<u32>>, b: Seq<Option<u32>>) -> bool
    decreases a.len(),
{
    if b.len() == 0 {
        false
    } else if a.len() == 0 {
        true
    } else if spec_opt_lt(a[0], b[0]) {
        true
    } else if a[0] != b[0] {
        false
    } else {
        spec_data_lt(a.drop_first(), b.drop_first())
    }
}

/// Compare two aligned value sequences lexicographically.
pub fn data_lt(a: &Vec<Option<u32>>, b: &Vec<Option<u32>>) -> (r: bool)
    ensures
        r == spec_data_lt(a@, b@),
{
    proof {
        assert(a@.subrange(0, a@.len() as int) =~= a@);
        assert(b@.subrange(0, b@.len() as int) =~= b@);
    }
    let mut k: usize = 0;
    loop
        invariant
            k <= a.len(),
            k <= b.len(),
            spec_data_lt(a@, b@) == spec_data_lt(
                a@.subrange(k as int, a@.len() as int),
                b@.subrange(k as int, b@.len() as int),
            ),
        decreases a.len() - k,
    {
        if k >= b.len() {
            proof {
                assert(b@.subrange(k as int, b@.len() as int).len() == 0);
            }
            return false;
        }
        if k >= a.len() {
            proof {
                assert(a@.subrange(k as int, a@.len() as int).len() == 0);
                assert(b@.subrange(k as int, b@.len() as int).len() > 0);
            }
            return true;
        }
        proof {
            let sa = a@.subrange(k as int, a@.len() as int);
            let sb = b@.subrange(k as int, b@.len() as int);
            assert(sa[0] == a@[k as int]);
            assert(sb[0] == b@[k as int]);
            assert(sa.drop_first() =~= a@.subrange(k + 1 as int, a@.len() as int));
            assert(sb.drop_first() =~= b@.subrange(k + 1 as int, b@.len() as int));
        }
        let lt = match (a[k], b[k]) {
            (None, Some(_)) => true,
            (Some(x), Some(y)) => x < y,
            _ => false,
        };
        if lt {
            return true;
        }
        let eq = match (a[k], b[k]) {
            (None, None) => true,
            (Some(x), Some(y)) => x == y,
            _ => false,
        };
        if !eq {
            return false;
        }
        k = k + 1;
    }
}

/// Whether two aligned value sequences are equal.
pub fn data_eq(a: &Vec<Option<u32>>, b: &Vec<Option<u32>>) -> (r: bool)
    ensures
        r == (a@ == b@),
{
    if a.len() != b.len() {
        proof {
            assert(a@ != b@);
        }
        return false;
    }
    let mut k: usize = 0;
    while k < a.len()
        invariant
            k <= a.len(),
            a.len() == b.len(),
            forall|m: int| 0 <= m < k ==> a@[m] == b@[m],
        decreases a.len() - k,
    {
        let eq = match (a[k], b[k]) {
            (None, None) => true,
            (Some(x), Some(y)) => x == y,
            _ => false,
        };
        if !eq {
            proof {
                assert(a@[k as int] != b@[k as int]);
            }
            return false;
        }
        k = k + 1;
    }
    proof {
        assert(a@ =~= b@);
    }
    true
}

/// The deterministic order of the series list: by name, then colour, then
/// the data itself, so equal output rows always stand in one order.
pub open spec fn spec_series_le(a: SeriesV, b: SeriesV) -> bool {
    spec_chars_lt(a.name, b.name) || (a.name == b.name && (spec_chars_lt(a.color, b.color) || (
    a.color == b.color && (spec_data_lt(a.data, b.data) || a.data == b.data))))
}

/// Decide the series order.
pub fn series_le(a: &Series, b: &Series) -> (r: bool)
    ensures
        r == spec_series_le(a@, b@),
{
    let an = crate::text::chars_vec(a.name.as_str());
    let bn = crate::text::chars_vec(b.name.as_str());
    if chars_lt(&an, &bn) {
        return true;
    }
    if !crate::model::chars_eq(&an, &bn) {
        return false;
    }
    let ac = crate::text::chars_vec(a.color.as_str());
    let bc = crate::text::chars_vec(b.color.as_str());
    if chars_lt(&ac, &bc) {
        return true;
    }
    if !crate::model::chars_eq(&ac, &bc) {
        return false;
    }
    if data_lt(&a.data, &b.data) {
        return true;
    }
    data_eq(&a.data, &b.data)
}

/// Insert a series before the first one it orders at or before.
pub open spec fn spec_insert_sorted(s: Seq<SeriesV>, x: SeriesV) -> Seq<SeriesV>
    decreases s.len(),
{
    if s.len() == 0 {
        seq![x]
    } else if spec_series_le(x, s[0]) {
        seq![x] + s
    } else {
        seq![s[0]] + spec_insert_sorted(s.drop_first(), x)
    }
}

/// The insertion point found by a scan is the insertion point of the
/// specification.
proof fn lemma_insert_sorted_at(s: Seq<SeriesV>, x: SeriesV, k: int)
    requires
        0 <= k <= s.len(),
        forall|m: int| 0 <= m < k ==> !spec_series_le(x, #[trigger] s[m]),
        k < s.len() ==> spec_series_le(x, s[k]),
    ensures
        spec_insert_sorted(s, x) == s.insert(k, x),
    decreases k,
{
    if k == 0 {
        if s.len() == 0 {
            assert(spec_insert_sorted(s, x) =~= s.insert(0, x));
        } else {
            assert(spec_insert_sorted(s, x) =~= s.insert(0, x));
        }
    } else {
        lemma_insert_sorted_at(s.drop_first(), x, k - 1);
        assert(s.drop_first().insert(k - 1, x) =~= s.insert(k, x).drop_first());
        assert(s.insert(k, x)[0] == s[0]);
        assert(spec_insert_sorted(s, x) =~= s.insert(k, x));
    }
}

/// Insert a series into an already built list at its ordered place.
fn insert_sorted(out: &mut Vec<Series>, x: Series)
    ensures
        final(out)@.map_values(|e: Series| e@) == spec_insert_sorted(
            old(out)@.map_values(|e: Series| e@),
            x@,
        ),
{
    let ghost s0 = out@.map_values(|e: Series| e@);
    let mut k: usize = 0;
    while k < out.len()
        invariant
            s0 == old(out)@.map_values(|e: Series| e@),
            out@.map_values(|e: Series| e@) == s0,
            k <= out.len(),
            forall|m: int| 0 <= m < k ==> !spec_series_le(x@, #[trigger] s0[m]),
        decreases out.len() - k,
    {
        proof {
            assert(s0[k as int] == out@[k as int]@);
        }
        if series_le(&x, &out[k]) {
            proof {
                lemma_insert_sorted_at(s0, x@, k as int);
            }
            out.insert(k, x);
            proof {
                assert(out@.map_values(|e: Series| e@) =~= s0.insert(k as int, x@));
            }
            return ;
        }
        k = k + 1;
    }
    proof {
        lemma_insert_sorted_at(s0, x@, s0.len() as int);
    }
    let n = out.len();
    out.insert(n, x);
    proof {
        assert(out@.map_values(|e: Series| e@) =~= s0.insert(s0.len() as int, x@));
    }
}

/// The series list in its deterministic output order.
pub open spec fn spec_sort_series(s: Seq<SeriesV>) -> Seq<SeriesV>
    decreases s.len(),
{
    if s.len() == 0 {
        Seq::empty()
    } else {
        spec_insert_sorted(spec_sort_series(s.drop_last()), s.last())
    }
}

/// Sort the series list into its deterministic output order.
fn sort_series(list: Vec<Series>) -> (out: Vec<Series>)
    ensures
        out@.map_values(|e: Series| e@) == spec_sort_series(list@.map_values(|e: Series| e@)),
{
    let ghost l0 = list@.map_values(|e: Series| e@);
    let mut list = list;
    let len = list.len();
    let mut out: Vec<Series> = Vec::new();
    proof {
        assert(out@.map_values(|e: Series| e@) =~= Seq::<SeriesV>::empty());
        assert(l0.subrange(0, 0) =~= Seq::<SeriesV>::empty());
        assert(spec_sort_series(l0.subrange(0, 0)) == Seq::<SeriesV>::empty());
    }
    let mut i: usize = 0;
    while i < len
        invariant
            i <= len,
            len == l0.len(),
            list@.map_values(|e: Series| e@) == l0.subrange(i as int, len as int),
            out@.map_values(|e: Series| e@) == spec_sort_series(l0.subrange(0, i as int)),
        decreases len - i,
    {
        proof {
            assert(list@.map_values(|e: Series| e@).len() == len - i);
            assert(list@.len() == len - i);
            assert(list@.map_values(|e: Series| e@)[0] == list@[0]@);
            assert(l0.subrange(i as int, len as int)[0] == l0[i as int]);
            assert(list@.drop_first().map_values(|e: Series| e@) =~= list@.map_values(
                |e: Series| e@,
            ).drop_first());
            assert(list@.map_values(|e: Series| e@).drop_first() =~= l0.subrange(
                i + 1 as int,
                len as int,
            ));
        }
        let x = list.remove(0);
        proof {
            assert(x@ == l0[i as int]);
            let pre = l0.subrange(0, i + 1 as int);
            assert(pre.drop_last() =~= l0.subrange(0, i as int));
            assert(pre.last() == l0[i as int]);
        }
        insert_sorted(&mut out, x);
        i = i + 1;
    }
    proof {
        assert(l0.subrange(0, len as int) =~= l0);
    }
    out
}

/// The series one id contributes, if it survives: an id unseen at any
/// surviving point is dropped, and so is one whose latest known position
/// lies above the caller's ceiling. A latest sighting without a position
/// cannot exceed any ceiling and is kept.
pub open spec fn spec_series_for(kept: Seq<PointV>, id: u32, max: Option<u32>) -> Option<SeriesV> {
    match spec_latest(kept, id) {
        None => None,
        Some(v) => {
            let over = match max {
                Some(m) => match v.queue_position.position {
                    Some(pos) => pos > m,
                    None => false,
                },
                None => false,
            };
            if over {
                None
            } else {
                Some(
                    SeriesV {
                        name: spec_series_name(v),
                        color: spec_series_color(v.reserved),
                        data: spec_series_data(kept, id),
                    },
                )
            }
        },
    }
}

/// The series of every surviving id, in universe order, from `k` on.
pub open spec fn spec_series_list(
    kept: Seq<PointV>,
    ids: Seq<u32>,
    max: Option<u32>,
    k: int,
) -> Seq<SeriesV>
    decreases ids.len() - k,
{
    if k < 0 || k >= ids.len() {
        Seq::empty()
    } else {
        match spec_series_for(kept, ids[k], max) {
            None => spec_series_list(kept, ids, max, k + 1),
            Some(sv) => seq![sv] + spec_series_list(kept, ids, max, k + 1),
        }
    }
}

/// Build the series of every surviving id, in universe order.
fn build_series(kept: &Vec<Point>, ids: &Vec<u32>, query: &QueueHistoryQuery) -> (out: Vec<Series>)
    ensures
        out@.map_values(|e: Series| e@) == spec_series_list(
            points_view(kept@),
            ids@,
            query.max,
            0,
        ),
{
    let ghost kv = points_view(kept@);
    let mut out: Vec<Series> = Vec::new();
    proof {
        assert(out@.map_values(|e: Series| e@) =~= Seq::<SeriesV>::empty());
    }
    let mut k: usize = 0;
    while k < ids.len()
        invariant
            kv == points_view(kept@),
            k <= ids.len(),
            spec_series_list(kv, ids@, query.max, 0) == out@.map_values(|e: Series| e@)
                + spec_series_list(kv, ids@, query.max, k as int),
        decreases ids.len() - k,
    {
        let id = ids[k];
        let ghost out_before = out@.map_values(|e: Series| e@);
        match latest(kept, id) {
            None => {},
            Some(v) => {
                let over = match query.max {
                    Some(m) => match v.queue_position.position {
                        Some(pos) => pos > m,
                        None => false,
                    },
                    None => false,
                };
                if !over {
                    let name = series_name(v);
                    let color_lit = if v.reserved {
                        "#ff000080"
                    } else {
                        "#00000020"
                    };
                    let color_chars = crate::text::chars_vec(color_lit);
                    let color = crate::text::string_from_chars(&color_chars);
                    let data = series_data(kept, id);
                    let sv = Series { name, color, data };
                    proof {
                        assert(sv@ == spec_series_for(kv, id, query.max)->Some_0);
                    }
                    out.push(sv);
                    proof {
                        assert(out@.map_values(|e: Series| e@) =~= out_before.push(sv@));
                        assert(out_before + (seq![sv@] + spec_series_list(
                            kv,
                            ids@,
                            query.max,
                            k + 1 as int,
                        )) =~= out@.map_values(|e: Series| e@) + spec_series_list(
                            kv,
                            ids@,
                            query.max,
                            k + 1 as int,
                        ));
                    }
                }
            },
        }
        k = k + 1;
    }
    proof {
        assert(spec_series_list(kv, ids@, query.max, ids@.len() as int)
            =~= Seq::<SeriesV>::empty());
        assert(out@.map_values(|e: Series| e@) + Seq::<SeriesV>::empty() =~= out@.map_values(
            |e: Series| e@,
        ));
    }
    out
}

/// The surviving timestamps, in ascending point order.
pub open spec fn spec_categories(kept: Seq<PointV>) -> Seq<i64> {
    kept.map_values(|pt: PointV| pt.timestamp)
}

/// Collect the surviving timestamps.
fn categories(kept: &Vec<Point>) -> (out: Vec<i64>)
    ensures
        out@ == spec_categories(points_view(kept@)),
{
    let ghost kv = points_view(kept@);
    let mut out: Vec<i64> = Vec::new();
    let mut k: usize = 0;
    while k < kept.len()
        invariant
            kv == points_view(kept@),
            k <= kept.len(),
            out@.len() == k,
            forall|m: int| 0 <= m < k ==> out@[m] == #[trigger] kv[m].timestamp,
        decreases kept.len() - k,
    {
        proof {
            assert(kv[k as int] == kept@[k as int]@);
        }
        out.push(kept[k].timestamp);
        k = k + 1;
    }
    proof {
        assert(out@ =~= spec_categories(kv));
    }
    out
}

/// The chart that a record list denotes under a query and a retention
/// policy. Everything the chart holds is a function of these three alone.
pub open spec fn spec_chart(
    rs: Seq<CommitRecordV>,
    max: Option<u32>,
    policy: RetentionPolicy,
) -> ChartV {
    let pts = spec_points(rs);
    let kept = spec_retain(pts, policy);
    ChartV {
        categories: spec_categories(kept),
        series: spec_sort_series(spec_series_list(kept, spec_ids(pts), max, 0)),
    }
}

/// Fold the records of a commit walk into the chart payload. The result
/// is a function of the records, the query and the policy alone, so
/// repeated queries over the same history return identical output; no
/// records at all yield an empty chart.
pub fn chart_from_records(
    records: &Vec<CommitRecord>,
    query: &QueueHistoryQuery,
    policy: &RetentionPolicy,
) -> (c: Chart)
    requires
        policy.stride >= 1,
    ensures
        c@ == spec_chart(records_view(records@), query.max, *policy),
        records@.len() == 0 ==> c@.categories.len() == 0 && c@.series.len() == 0,
{
    let pts = build_points(records);
    let ids = collect_ids(&pts);
    let kept = retain(pts, policy);
    let list = build_series(&kept, &ids, query);
    let sorted = sort_series(list);
    let cats = categories(&kept);
    proof {
        if records@.len() == 0 {
            assert(records_view(records@).len() == 0);
            assert(spec_points(records_view(records@)) == Seq::<PointV>::empty());
            assert(spec_retain(Seq::<PointV>::empty(), *policy) =~= Seq::<PointV>::empty());
        }
    }
    Chart { categories: cats, series: sorted }
}

/// The strict key order between two whole points.
pub open spec fn point_key_lt(a: PointV, b: PointV) -> bool {
    spec_key_lt(a.timestamp, a.commit, b.timestamp, b.commit)
}

/// A point list whose keys strictly ascend: no two points collapse and
/// their order never wavers.
pub open spec fn strictly_ordered(pts: Seq<PointV>) -> bool {
    forall|i: int, j: int| 0 <= i < j < pts.len() ==> point_key_lt(#[trigger] pts[i], #[trigger] pts[j])
}

/// The byte-string order chains.
proof fn lemma_bytes_lt_trans(a: Seq<u8>, b: Seq<u8>, c: Seq<u8>)
    requires
        spec_bytes_lt(a, b),
        spec_bytes_lt(b, c),
    ensures
        spec_bytes_lt(a, c),
    decreases a.len(),
{
    if a.len() == 0 {
    } else {
        if a[0] == b[0] && b[0] == c[0] {
            lemma_bytes_lt_trans(a.drop_first(), b.drop_first(), c.drop_first());
        }
    }
}

/// The key order chains.
proof fn lemma_key_lt_trans(a: PointV, b: PointV, c: PointV)
    requires
        point_key_lt(a, b),
        point_key_lt(b, c),
    ensures
        point_key_lt(a, c),
{
    if a.timestamp == b.timestamp && b.timestamp == c.timestamp {
        lemma_bytes_lt_trans(a.commit, b.commit, c.commit);
    }
}

/// Every key of an upserted list is the new key or one that was already
/// there.
proof fn lemma_upsert_keys(pts: Seq<PointV>, t: i64, c: Seq<u8>, id: u32, p: PropertyV)
    ensures
        forall|j: int|
            0 <= j < spec_point_upsert(pts, t, c, id, p).len()
                ==> (#[trigger] spec_point_upsert(pts, t, c, id, p)[j].timestamp == t
                && spec_point_upsert(pts, t, c, id, p)[j].commit == c) || exists|m: int|
                0 <= m < pts.len() && spec_point_upsert(pts, t, c, id, p)[j].timestamp
                    == pts[m].timestamp && spec_point_upsert(pts, t, c, id, p)[j].commit
                    == pts[m].commit,
    decreases pts.len(),
{
    let r = spec_point_upsert(pts, t, c, id, p);
    if pts.len() == 0 {
    } else if t == pts[0].timestamp && c == pts[0].commit {
        assert(forall|j: int| 1 <= j < r.len() ==> r[j] == pts[j]);
    } else if spec_key_lt(t, c, pts[0].timestamp, pts[0].commit) {
        assert(forall|j: int| 1 <= j < r.len() ==> r[j] == pts[j - 1]);
    } else {
        lemma_upsert_keys(pts.drop_first(), t, c, id, p);
        let rr = spec_point_upsert(pts.drop_first(), t, c, id, p);
        assert(r[0] == pts[0]);
        assert(forall|j: int| 1 <= j < r.len() ==> r[j] == rr[j - 1]);
        assert forall|j: int| 1 <= j < r.len() implies (r[j].timestamp == t && r[j].commit == c)
            || exists|m: int|
            0 <= m < pts.len() && r[j].timestamp == pts[m].timestamp && r[j].commit
                == pts[m].commit by {
            if !(rr[j - 1].timestamp == t && rr[j - 1].commit == c) {
                let m = choose|m: int|
                    0 <= m < pts.drop_first().len() && rr[j - 1].timestamp
                        == pts.drop_first()[m].timestamp && rr[j - 1].commit
                        == pts.drop_first()[m].commit;
                assert(pts.drop_first()[m] == pts[m + 1]);
            }
        }
    }
}

/// Folding one entity in never disturbs the strict key order.
proof fn lemma_upsert_ordered(pts: Seq<PointV>, t: i64, c: Seq<u8>, id: u32, p: PropertyV)
    requires
        strictly_ordered(pts),
    ensures
        strictly_ordered(spec_point_upsert(pts, t, c, id, p)),
    decreases pts.len(),
{
    let r = spec_point_upsert(pts, t, c, id, p);
    if pts.len() == 0 {
    } else if t == pts[0].timestamp && c == pts[0].commit {
        assert(forall|j: int| 1 <= j < r.len() ==> r[j] == pts[j]);
        assert(r[0].timestamp == pts[0].timestamp && r[0].commit == pts[0].commit);
        assert forall|i: int, j: int| 0 <= i < j < r.len() implies point_key_lt(
            #[trigger] r[i],
            #[trigger] r[j],
        ) by {
            if i == 0 {
                assert(point_key_lt(pts[0], pts[j]));
            }
        }
    } else if spec_key_lt(t, c, pts[0].timestamp, pts[0].commit) {
        assert(forall|j: int| 1 <= j < r.len() ==> r[j] == pts[j - 1]);
        assert forall|i: int, j: int| 0 <= i < j < r.len() implies point_key_lt(
            #[trigger] r[i],
            #[trigger] r[j],
        ) by {
            if i == 0 {
                if j == 1 {
                } else {
                    lemma_key_lt_trans(r[0], pts[0], pts[j - 1]);
                }
            }
        }
    } else {
        assert(strictly_ordered(pts.drop_first())) by {
            assert(forall|i: int, j: int|
                0 <= i < j < pts.drop_first().len() ==> pts.drop_first()[i] == pts[i + 1]
                    && pts.drop_first()[j] == pts[j + 1]);
        }
        lemma_upsert_ordered(pts.drop_first(), t, c, id, p);
        lemma_upsert_keys(pts.drop_first(), t, c, id, p);
        let rr = spec_point_upsert(pts.drop_first(), t, c, id, p);
        assert(r[0] == pts[0]);
        assert(forall|j: int| 1 <= j < r.len() ==> r[j] == rr[j - 1]);
        // the head orders below the new key and below every old key
        assert(spec_key_lt(pts[0].timestamp, pts[0].commit, t, c)) by {
            if pts[0].timestamp == t {
                lemma_bytes_lt_connex(pts[0].commit, c);
            }
        }
        assert forall|i: int, j: int| 0 <= i < j < r.len() implies point_key_lt(
            #[trigger] r[i],
            #[trigger] r[j],
        ) by {
            if i == 0 {
                if rr[j - 1].timestamp == t && rr[j - 1].commit == c {
                    assert(point_key_lt(r[0], r[j]));
                } else {
                    let m = choose|m: int|
                        0 <= m < pts.drop_first().len() && rr[j - 1].timestamp
                            == pts.drop_first()[m].timestamp && rr[j - 1].commit
                            == pts.drop_first()[m].commit;
                    assert(pts.drop_first()[m] == pts[m + 1]);
                    assert(point_key_lt(pts[0], pts[m + 1]));
                    assert(point_key_lt(r[0], r[j]));
                }
            } else {
                assert(point_key_lt(rr[i - 1], rr[j - 1]));
            }
        }
    }
}

/// Every key of a touched list is the touched key or one already there.
proof fn lemma_touch_keys(pts: Seq<PointV>, t: i64, c: Seq<u8>)
    ensures
        forall|j: int|
            0 <= j < spec_point_touch(pts, t, c).len()
                ==> (#[trigger] spec_point_touch(pts, t, c)[j].timestamp == t
                && spec_point_touch(pts, t, c)[j].commit == c) || exists|m: int|
                0 <= m < pts.len() && spec_point_touch(pts, t, c)[j].timestamp
                    == pts[m].timestamp && spec_point_touch(pts, t, c)[j].commit
                    == pts[m].commit,
    decreases pts.len(),
{
    let r = spec_point_touch(pts, t, c);
    if pts.len() == 0 {
    } else if t == pts[0].timestamp && c == pts[0].commit {
    } else if spec_key_lt(t, c, pts[0].timestamp, pts[0].commit) {
        assert(forall|j: int| 1 <= j < r.len() ==> r[j] == pts[j - 1]);
    } else {
        lemma_touch_keys(pts.drop_first(), t, c);
        let rr = spec_point_touch(pts.drop_first(), t, c);
        assert(r[0] == pts[0]);
        assert(forall|j: int| 1 <= j < r.len() ==> r[j] == rr[j - 1]);
        assert forall|j: int| 1 <= j < r.len() implies (r[j].timestamp == t && r[j].commit == c)
            || exists|m: int|
            0 <= m < pts.len() && r[j].timestamp == pts[m].timestamp && r[j].commit
                == pts[m].commit by {
            if !(rr[j - 1].timestamp == t && rr[j - 1].commit == c) {
                let m = choose|m: int|
                    0 <= m < pts.drop_first().len() && rr[j - 1].timestamp
                        == pts.drop_first()[m].timestamp && rr[j - 1].commit
                        == pts.drop_first()[m].commit;
                assert(pts.drop_first()[m] == pts[m + 1]);
            }
        }
    }
}

/// Touching a key never disturbs the strict key order.
proof fn lemma_touch_ordered(pts: Seq<PointV>, t: i64, c: Seq<u8>)
    requires
        strictly_ordered(pts),
    ensures
        strictly_ordered(spec_point_touch(pts, t, c)),
    decreases pts.len(),
{
    let r = spec_point_touch(pts, t, c);
    if pts.len() == 0 {
    } else if t == pts[0].timestamp && c == pts[0].commit {
    } else if spec_key_lt(t, c, pts[0].timestamp, pts[0].commit) {
        assert(forall|j: int| 1 <= j < r.len() ==> r[j] == pts[j - 1]);
        assert forall|i: int, j: int| 0 <= i < j < r.len() implies point_key_lt(
            #[trigger] r[i],
            #[trigger] r[j],
        ) by {
            if i == 0 {
                if j == 1 {
                } else {
                    lemma_key_lt_trans(r[0], pts[0], pts[j - 1]);
                }
            }
        }
    } else {
        assert(strictly_ordered(pts.drop_first())) by {
            assert(forall|i: int, j: int|
                0 <= i < j < pts.drop_first().len() ==> pts.drop_first()[i] == pts[i + 1]
                    && pts.drop_first()[j] == pts[j + 1]);
        }
        lemma_touch_ordered(pts.drop_first(), t, c);
        lemma_touch_keys(pts.drop_first(), t, c);
        let rr = spec_point_touch(pts.drop_first(), t, c);
        assert(r[0] == pts[0]);
        assert(forall|j: int| 1 <= j < r.len() ==> r[j] == rr[j - 1]);
        assert(spec_key_lt(pts[0].timestamp, pts[0].commit, t, c)) by {
            if pts[0].timestamp == t {
                lemma_bytes_lt_connex(pts[0].commit, c);
            }
        }
        assert forall|i: int, j: int| 0 <= i < j < r.len() implies point_key_lt(
            #[trigger] r[i],
            #[trigger] r[j],
        ) by {
            if i == 0 {
                if rr[j - 1].timestamp == t && rr[j - 1].commit == c {
                    assert(point_key_lt(r[0], r[j]));
                } else {
                    let m = choose|m: int|
                        0 <= m < pts.drop_first().len() && rr[j - 1].timestamp
                            == pts.drop_first()[m].timestamp && rr[j - 1].commit
                            == pts.drop_first()[m].commit;
                    assert(pts.drop_first()[m] == pts[m + 1]);
                    assert(point_key_lt(pts[0], pts[m + 1]));
                    assert(point_key_lt(r[0], r[j]));
                }
            } else {
                assert(point_key_lt(rr[i - 1], rr[j - 1]));
            }
        }
    }
}

/// Folding one file in never disturbs the strict key order.
proof fn lemma_add_file_ordered(pts: Seq<PointV>, t: i64, c: Seq<u8>, f: ArchiveFileV)
    requires
        strictly_ordered(pts),
    ensures
        strictly_ordered(spec_add_file(pts, t, c, f)),
{
    if crate::codec::matches_at(f.path, 0, "vacant"@) {
        lemma_touch_ordered(pts, t, c);
        let touched = spec_point_touch(pts, t, c);
        if vstd::utf8::valid_utf8(f.content) {
            match spec_decode(vstd::utf8::decode_utf8(f.content)) {
                None => {},
                Some(e) => {
                    let p = crate::model::spec_entry_to_property(e);
                    if p.property_type is Apartment {
                        lemma_upsert_ordered(touched, t, c, p.id, p);
                    }
                },
            }
        }
    }
}

/// Folding a commit's files in never disturbs the strict key order.
proof fn lemma_add_files_ordered(
    pts: Seq<PointV>,
    t: i64,
    c: Seq<u8>,
    files: Seq<ArchiveFileV>,
    k: int,
)
    requires
        strictly_ordered(pts),
    ensures
        strictly_ordered(spec_add_files(pts, t, c, files, k)),
    decreases files.len() - k,
{
    if 0 <= k < files.len() {
        lemma_add_file_ordered(pts, t, c, files[k]);
        lemma_add_files_ordered(spec_add_file(pts, t, c, files[k]), t, c, files, k + 1);
    }
}

/// Folding whole records in never disturbs the strict key order.
proof fn lemma_add_records_ordered(pts: Seq<PointV>, rs: Seq<CommitRecordV>, j: int)
    requires
        strictly_ordered(pts),
    ensures
        strictly_ordered(spec_add_records(pts, rs, j)),
    decreases rs.len() - j,
{
    if 0 <= j < rs.len() {
        lemma_add_files_ordered(
            pts,
            spec_point_time(rs[j].seconds, rs[j].offset_minutes),
            rs[j].id,
            rs[j].files,
            0,
        );
        lemma_add_records_ordered(
            spec_add_files(
                pts,
                spec_point_time(rs[j].seconds, rs[j].offset_minutes),
                rs[j].id,
                rs[j].files,
                0,
            ),
            rs,
            j + 1,
        );
    }
}

/// The time points a record list denotes are strictly ordered by their
/// (timestamp, commit) key: same-second commits never collapse, and a
/// commit is never seen twice.
pub proof fn lemma_points_strictly_ordered(rs: Seq<CommitRecordV>)
    ensures
        strictly_ordered(spec_points(rs)),
{
    lemma_add_records_ordered(Seq::empty(), rs, 0);
}

/// Every surviving point was a point, at or after where the pass stood.
proof fn lemma_retain_members(pts: Seq<PointV>, cutoff: i64, stride: int, tail: int, i: int)
    ensures
        forall|j: int|
            0 <= j < spec_retain_from(pts, cutoff, stride, tail, i).len() ==> exists|m: int|
                i <= m < pts.len() && #[trigger] spec_retain_from(pts, cutoff, stride, tail, i)[j]
                    == pts[m],
    decreases pts.len() - i,
{
    if i < 0 || i >= pts.len() {
    } else {
        lemma_retain_members(pts, cutoff, stride, tail, i + 1);
        let r = spec_retain_from(pts, cutoff, stride, tail, i);
        let rr = spec_retain_from(pts, cutoff, stride, tail, i + 1);
        if spec_keeps(cutoff, stride, tail, i, pts.len() as int, pts[i].timestamp) {
            assert(r[0] == pts[i]);
            assert(forall|j: int| 1 <= j < r.len() ==> r[j] == rr[j - 1]);
        }
    }
}

/// Downsampling keeps the surviving points in their strict key order.
proof fn lemma_retain_ordered(pts: Seq<PointV>, cutoff: i64, stride: int, tail: int, i: int)
    requires
        strictly_ordered(pts),
    ensures
        strictly_ordered(spec_retain_from(pts, cutoff, stride, tail, i)),
    decreases pts.len() - i,
{
    if i < 0 || i >= pts.len() {
    } else {
        lemma_retain_ordered(pts, cutoff, stride, tail, i + 1);
        lemma_retain_members(pts, cutoff, stride, tail, i + 1);
        let r = spec_retain_from(pts, cutoff, stride, tail, i);
        let rr = spec_retain_from(pts, cutoff, stride, tail, i + 1);
        if spec_keeps(cutoff, stride, tail, i, pts.len() as int, pts[i].timestamp) {
            assert(r[0] == pts[i]);
            assert(forall|j: int| 1 <= j < r.len() ==> r[j] == rr[j - 1]);
            assert forall|a: int, b: int| 0 <= a < b < r.len() implies point_key_lt(
                #[trigger] r[a],
                #[trigger] r[b],
            ) by {
                if a == 0 {
                    let m = choose|m: int| i + 1 <= m < pts.len() && rr[b - 1] == pts[m];
                    assert(point_key_lt(pts[i], pts[m]));
                } else {
                    assert(point_key_lt(rr[a - 1], rr[b - 1]));
                }
            }
        }
    }
}

/// The surviving timestamps of a chart never decrease: the downsampled
/// history reads left to right in time.
pub proof fn lemma_chart_categories_ascend(
    rs: Seq<CommitRecordV>,
    max: Option<u32>,
    policy: RetentionPolicy,
)
    ensures
        forall|i: int, j: int|
            0 <= i < j < spec_chart(rs, max, policy).categories.len()
                ==> #[trigger] spec_chart(rs, max, policy).categories[i]
                <= #[trigger] spec_chart(rs, max, policy).categories[j],
{
    lemma_points_strictly_ordered(rs);
    lemma_retain_ordered(
        spec_points(rs),
        policy.cutoff,
        policy.stride as int,
        policy.tail as int,
        0,
    );
    let kept = spec_retain(spec_points(rs), policy);
    assert(forall|i: int|
        0 <= i < kept.len() ==> #[trigger] spec_chart(rs, max, policy).categories[i]
            == kept[i].timestamp);
}

/// One archive file no shape could read: its path and the commit that
/// holds it, for the caller to log. Decode failures never abort a read.
#[derive(Debug, PartialEq)]
pub struct SkippedFile {
    pub path: String,
    pub commit: Vec<u8>,
}

/// Spec-level value of a `SkippedFile`.
pub struct SkippedFileV {
    pub path: Seq<char>,
    pub commit: Seq<u8>,
}

impl View for SkippedFile {
    type V = SkippedFileV;

    open spec fn view(&self) -> SkippedFileV {
        SkippedFileV { path: self.path@, commit: self.commit@ }
    }
}

/// Whether a file is an archive file that no shape could read.
pub open spec fn spec_file_skipped(f: ArchiveFileV) -> bool {
    crate::codec::matches_at(f.path, 0, "vacant"@) && (!vstd::utf8::valid_utf8(f.content)
        || spec_decode(vstd::utf8::decode_utf8(f.content)) is None)
}

/// Collect the unreadable archive files of one commit, from `k` on.
pub open spec fn spec_skipped_in_files(
    acc: Seq<SkippedFileV>,
    c: Seq<u8>,
    files: Seq<ArchiveFileV>,
    k: int,
) -> Seq<SkippedFileV>
    decreases files.len() - k,
{
    if k < 0 || k >= files.len() {
        acc
    } else {
        let acc2 = if spec_file_skipped(files[k]) {
            acc.push(SkippedFileV { path: files[k].path, commit: c })
        } else {
            acc
        };
        spec_skipped_in_files(acc2, c, files, k + 1)
    }
}

/// Collect the unreadable archive files of every commit, from `j` on.
pub open spec fn spec_skipped_in_records(
    acc: Seq<SkippedFileV>,
    rs: Seq<CommitRecordV>,
    j: int,
) -> Seq<SkippedFileV>
    decreases rs.len() - j,
{
    if j < 0 || j >= rs.len() {
        acc
    } else {
        spec_skipped_in_records(spec_skipped_in_files(acc, rs[j].id, rs[j].files, 0), rs, j + 1)
    }
}

/// Every archive file of the walk that no shape could read, in walk
/// order, with the commit that holds it.
pub open spec fn spec_skipped_files(rs: Seq<CommitRecordV>) -> Seq<SkippedFileV> {
    spec_skipped_in_records(Seq::empty(), rs, 0)
}

/// Collect every archive file of the walk that no shape could read, so
/// the caller can log each path with its owning commit.
pub fn decode_failures(records: &Vec<CommitRecord>) -> (out: Vec<SkippedFile>)
    ensures
        out@.map_values(|f: SkippedFile| f@) == spec_skipped_files(records_view(records@)),
{
    let ghost rs = records_view(records@);
    let mut out: Vec<SkippedFile> = Vec::new();
    proof {
        assert(out@.map_values(|f: SkippedFile| f@) =~= Seq::<SkippedFileV>::empty());
    }
    let mut j: usize = 0;
    while j < records.len()
        invariant
            rs == records_view(records@),
            j <= records.len(),
            spec_skipped_files(rs) == spec_skipped_in_records(
                out@.map_values(|f: SkippedFile| f@),
                rs,
                j as int,
            ),
        decreases records.len() - j,
    {
        proof {
            assert(rs[j as int] == records@[j as int]@);
        }
        let mut k: usize = 0;
        while k < records[j].files.len()
            invariant
                rs == records_view(records@),
                j < records.len(),
                rs[j as int] == records@[j as int]@,
                k <= records@[j as int].files@.len(),
                spec_skipped_files(rs) == spec_skipped_in_records(
                    spec_skipped_in_files(
                        out@.map_values(|f: SkippedFile| f@),
                        rs[j as int].id,
                        rs[j as int].files,
                        k as int,
                    ),
                    rs,
                    j + 1 as int,
                ),
            decreases records@[j as int].files@.len() - k,
        {
            let ghost out_before = out@.map_values(|f: SkippedFile| f@);
            proof {
                assert(rs[j as int].files[k as int] == records@[j as int].files@[k as int]@);
            }
            let path_chars = crate::text::chars_vec(records[j].files[k].path.as_str());
            let under_archive = match crate::codec::expect(&path_chars, 0, "vacant") {
                Some(_) => true,
                None => false,
            };
            if under_archive {
                let unreadable = match crate::text::utf8_to_string(&records[j].files[k].content) {
                    Some(text) => {
                        match crate::codec::decode(text.as_str()) {
                            Some(_) => false,
                            None => true,
                        }
                    },
                    None => true,
                };
                if unreadable {
                    let pc = crate::text::chars_vec(records[j].files[k].path.as_str());
                    let sk = SkippedFile {
                        path: crate::text::string_from_chars(&pc),
                        commit: to_owned_bytes(&records[j].id),
                    };
                    proof {
                        assert(sk@ == SkippedFileV {
                            path: rs[j as int].files[k as int].path,
                            commit: rs[j as int].id,
                        });
                    }
                    out.push(sk);
                    proof {
                        assert(out@.map_values(|f: SkippedFile| f@) =~= out_before.push(sk@));
                    }
                }
            }
            k = k + 1;
        }
        j = j + 1;
    }
    out
}

/// The zero-based indices of the points a policy keeps, ascending, from
/// `i` on.
pub open spec fn spec_kept_indices(
    pts: Seq<PointV>,
    cutoff: i64,
    stride: int,
    tail: int,
    i: int,
) -> Seq<int>
    decreases pts.len() - i,
{
    if i < 0 || i >= pts.len() {
        Seq::empty()
    } else if spec_keeps(cutoff, stride, tail, i, pts.len() as int, pts[i].timestamp) {
        seq![i] + spec_kept_indices(pts, cutoff, stride, tail, i + 1)
    } else {
        spec_kept_indices(pts, cutoff, stride, tail, i + 1)
    }
}

/// Downsampling in one statement, from `i` on: the survivors are exactly
/// the points at the kept indices, each exactly once, ascending.
proof fn lemma_retention_exact_from(pts: Seq<PointV>, cutoff: i64, stride: int, tail: int, i: int)
    requires
        0 <= i,
    ensures
        spec_retain_from(pts, cutoff, stride, tail, i).len() == spec_kept_indices(
            pts,
            cutoff,
            stride,
            tail,
            i,
        ).len(),
        forall|j: int|
            0 <= j < spec_kept_indices(pts, cutoff, stride, tail, i).len()
                ==> i <= #[trigger] spec_kept_indices(pts, cutoff, stride, tail, i)[j]
                < pts.len(),
        forall|j: int|
            0 <= j < spec_kept_indices(pts, cutoff, stride, tail, i).len()
                ==> #[trigger] spec_retain_from(pts, cutoff, stride, tail, i)[j] == pts[
                spec_kept_indices(pts, cutoff, stride, tail, i)[j]],
        forall|j: int, j2: int|
            0 <= j < j2 < spec_kept_indices(pts, cutoff, stride, tail, i).len()
                ==> #[trigger] spec_kept_indices(pts, cutoff, stride, tail, i)[j]
                < #[trigger] spec_kept_indices(pts, cutoff, stride, tail, i)[j2],
        forall|m: int|
            i <= m < pts.len() ==> (spec_keeps(cutoff, stride, tail, m, pts.len() as int, pts[m].timestamp)
                <==> spec_kept_indices(pts, cutoff, stride, tail, i).contains(m)),
    decreases pts.len() - i,
{
    let r = spec_retain_from(pts, cutoff, stride, tail, i);
    let ix = spec_kept_indices(pts, cutoff, stride, tail, i);
    if i < 0 || i >= pts.len() {
    } else {
        lemma_retention_exact_from(pts, cutoff, stride, tail, i + 1);
        let rr = spec_retain_from(pts, cutoff, stride, tail, i + 1);
        let rix = spec_kept_indices(pts, cutoff, stride, tail, i + 1);
        if spec_keeps(cutoff, stride, tail, i, pts.len() as int, pts[i].timestamp) {
            assert(r[0] == pts[i] && ix[0] == i);
            assert(forall|j: int| 1 <= j < r.len() ==> r[j] == rr[j - 1]);
            assert(forall|j: int| 1 <= j < ix.len() ==> ix[j] == rix[j - 1]);
            assert forall|m: int| i <= m < pts.len() implies (spec_keeps(
                cutoff,
                stride,
                tail,
                m,
                pts.len() as int,
                pts[m].timestamp,
            ) <==> ix.contains(m)) by {
                if m == i {
                    assert(ix[0] == m);
                    assert(ix.contains(m));
                } else {
                    assert(spec_keeps(cutoff, stride, tail, m, pts.len() as int, pts[m].timestamp)
                        <==> rix.contains(m));
                    if spec_keeps(cutoff, stride, tail, m, pts.len() as int, pts[m].timestamp) {
                        assert(rix.contains(m));
                        let w = choose|w: int| 0 <= w < rix.len() && rix[w] == m;
                        assert(ix[w + 1] == m);
                        assert(ix.contains(m));
                    }
                    if ix.contains(m) {
                        let w = choose|w: int| 0 <= w < ix.len() && ix[w] == m;
                        assert(w != 0);
                        assert(rix[w - 1] == m);
                        assert(rix.contains(m));
                    }
                }
            }
        } else {
            assert(r == rr && ix == rix);
            assert forall|m: int| i <= m < pts.len() implies (spec_keeps(
                cutoff,
                stride,
                tail,
                m,
                pts.len() as int,
                pts[m].timestamp,
            ) <==> ix.contains(m)) by {
                if m == i {
                    if ix.contains(m) {
                        let w = choose|w: int| 0 <= w < ix.len() && ix[w] == m;
                        assert(i + 1 <= rix[w]);
                        assert(false);
                    }
                } else {
                    assert(spec_keeps(cutoff, stride, tail, m, pts.len() as int, pts[m].timestamp)
                        <==> rix.contains(m));
                }
            }
        }
    }
}

/// Downsampling in one statement: the surviving points are exactly those
/// whose one-based index is a stride multiple or lies within the last
/// `tail` indices, at or after the cutoff — each at most once, in their
/// original ascending order; the surviving timestamps are theirs, in
/// that order.
pub proof fn lemma_retention_characterised(pts: Seq<PointV>, policy: RetentionPolicy)
    ensures
        spec_retain(pts, policy).len() == spec_kept_indices(
            pts,
            policy.cutoff,
            policy.stride as int,
            policy.tail as int,
            0,
        ).len(),
        forall|j: int|
            0 <= j < spec_retain(pts, policy).len() ==> #[trigger] spec_retain(pts, policy)[j]
                == pts[spec_kept_indices(
                pts,
                policy.cutoff,
                policy.stride as int,
                policy.tail as int,
                0,
            )[j]],
        forall|j: int, j2: int|
            0 <= j < j2 < spec_retain(pts, policy).len() ==> #[trigger] spec_kept_indices(
                pts,
                policy.cutoff,
                policy.stride as int,
                policy.tail as int,
                0,
            )[j] < #[trigger] spec_kept_indices(
                pts,
                policy.cutoff,
                policy.stride as int,
                policy.tail as int,
                0,
            )[j2],
        forall|m: int|
            0 <= m < pts.len() ==> (spec_keeps(
                policy.cutoff,
                policy.stride as int,
                policy.tail as int,
                m,
                pts.len() as int,
                pts[m].timestamp,
            ) <==> spec_kept_indices(
                pts,
                policy.cutoff,
                policy.stride as int,
                policy.tail as int,
                0,
            ).contains(m)),
{
    lemma_retention_exact_from(pts, policy.cutoff, policy.stride as int, policy.tail as int, 0);
}

} // verus!
