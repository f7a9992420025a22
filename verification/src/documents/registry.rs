//! The document registry's decisions: admission of opens, reloads and
//! previews, cancellation, the worker's next job, and the publication of a
//! finished open. The registry holds identities, paths and phases only; the
//! caller keeps the parsed revisions, performs the file work, and applies
//! the returned fate of each revision outside its lock.

use vstd::prelude::*;

use super::error::DocumentError;
use super::model::{DocumentId, OpenJobId, PreviewJobId, RevisionId};
use super::preview::cache::State as PreviewCache;
use super::preview::cache::fits;
use super::preview::model::{Key, PreviewConfig, PreviewKind, PreviewLease};
use crate::psd::model::LayerId;

use super::selection::error::SelectionError;
use super::selection::model::{DesignTask, SnapshotId};
use super::state::{Execution, OpenKind};

verus! {

/// A path by its components, compared as the platform path type compares:
/// component by component, each as raw bytes.
#[derive(Debug, Clone)]
pub struct PathKey {
    pub components: Vec<Vec<u8>>,
}

/// The components of a path key.
pub open spec fn path_view(p: PathKey) -> Seq<Seq<u8>> {
    p.components@.map_values(|c: Vec<u8>| c@)
}

/// Whether two byte strings are equal.
fn same_bytes(a: &Vec<u8>, b: &Vec<u8>) -> (r: bool)
    ensures
        r == (a@ == b@),
{
    if a.len() != b.len() {
        return false;
    }
    let mut i: usize = 0;
    while i < a.len()
        invariant
            a@.len() == b@.len(),
            i <= a@.len(),
            forall|j: int| 0 <= j < i ==> a@[j] == b@[j],
        decreases a@.len() - i,
    {
        if a[i] != b[i] {
            return false;
        }
        i = i + 1;
    }
    proof {
        assert(a@ =~= b@);
    }
    true
}

/// Whether two paths are the same path.
pub fn same_path(a: &PathKey, b: &PathKey) -> (r: bool)
    ensures
        r == (path_view(*a) == path_view(*b)),
{
    let n = a.components.len();
    if n != b.components.len() {
        proof {
            assert(path_view(*a).len() != path_view(*b).len());
        }
        return false;
    }
    let mut i: usize = 0;
    while i < n
        invariant
            n == a.components@.len(),
            n == b.components@.len(),
            i <= n,
            forall|j: int| 0 <= j < i ==> a.components@[j]@ == b.components@[j]@,
        decreases n - i,
    {
        if !same_bytes(&a.components[i], &b.components[i]) {
            proof {
                assert(path_view(*a)[i as int] != path_view(*b)[i as int]);
            }
            return false;
        }
        i = i + 1;
    }
    proof {
        assert(path_view(*a) =~= path_view(*b));
    }
    true
}

/// A copy of a path key.
pub fn copy_path(p: &PathKey) -> (q: PathKey)
    ensures
        path_view(q) == path_view(*p),
{
    let mut components: Vec<Vec<u8>> = Vec::new();
    let mut i: usize = 0;
    while i < p.components.len()
        invariant
            i <= p.components@.len(),
            components@.len() == i,
            forall|j: int| 0 <= j < i ==> (#[trigger] components@[j])@ == p.components@[j]@,
        decreases p.components@.len() - i,
    {
        let c = &p.components[i];
        let mut bytes: Vec<u8> = Vec::new();
        let mut k: usize = 0;
        while k < c.len()
            invariant
                k <= c@.len(),
                bytes@ == c@.take(k as int),
            decreases c@.len() - k,
        {
            bytes.push(c[k]);
            proof {
                assert(bytes@ =~= c@.take(k + 1));
            }
            k = k + 1;
        }
        proof {
            assert(c@.take(k as int) =~= c@);
        }
        components.push(bytes);
        i = i + 1;
    }
    let q = PathKey { components };
    proof {
        assert(path_view(q) =~= path_view(*p));
    }
    q
}

/// A published document: its identity, current revision, canonical path
/// and the path it was requested by.
#[derive(Debug)]
pub struct EntryRecord {
    pub document: DocumentId,
    pub revision: RevisionId,
    pub path: PathKey,
    pub request_path: PathKey,
    /// The committed selection of the document, if any.
    pub selection: Option<SnapshotId>,
    /// The layer the viewer inspects, if any.
    pub selected_layer: Option<LayerId>,
}

/// A queued or running open or reload.
#[derive(Debug)]
pub struct OpenRecord {
    pub id: OpenJobId,
    pub document: DocumentId,
    pub kind: OpenKind,
    /// The absolute path as requested.
    pub path: PathKey,
    /// The canonical path, once the worker resolved it.
    pub canonical: Option<PathKey>,
    pub execution: Execution,
}

/// A queued or running saved-composite preview.
#[derive(Debug, Clone, Copy)]
pub struct PreviewRecord {
    pub id: PreviewJobId,
    pub key: Key,
    pub execution: Execution,
}

/// A closed path that open jobs up to `cutoff` must not reopen.
#[derive(Debug)]
pub struct ClosedPath {
    pub path: PathKey,
    pub cutoff: OpenJobId,
}


/// The closed paths as plain values.
pub open spec fn closed_view(c: Seq<ClosedPath>) -> Seq<(Seq<Seq<u8>>, OpenJobId)> {
    c.map_values(|x: ClosedPath| (path_view(x.path), x.cutoff))
}

/// Open job ids ascend.
pub open spec fn ascending(p: Seq<OpenRecord>) -> bool {
    forall|i: int, j: int| 0 <= i < j < p.len() ==> (#[trigger] p[i]).id.0 < (#[trigger] p[j]).id.0
}

/// Preview job ids ascend.
pub open spec fn previews_ascending(p: Seq<PreviewRecord>) -> bool {
    forall|i: int, j: int| 0 <= i < j < p.len() ==> (#[trigger] p[i]).id.0 < (#[trigger] p[j]).id.0
}

/// Whether the open job at `i` has `id`.
pub open spec fn job_at(p: Seq<OpenRecord>, id: OpenJobId, i: int) -> bool {
    0 <= i < p.len() && p[i].id == id
}

/// Whether some open job has `id`.
pub open spec fn has_job(p: Seq<OpenRecord>, id: OpenJobId) -> bool {
    exists|i: int| job_at(p, id, i)
}

/// Whether the preview job at `i` has `id`.
pub open spec fn preview_at(p: Seq<PreviewRecord>, id: PreviewJobId, i: int) -> bool {
    0 <= i < p.len() && p[i].id == id
}

/// Whether the open job `id` exists and waits in the queue.
pub open spec fn queued_open(p: Seq<OpenRecord>, id: OpenJobId) -> bool {
    exists|i: int| job_at(p, id, i) && p[i].execution is Queued
}

/// Whether the preview job `id` exists and waits in the queue.
pub open spec fn queued_preview(p: Seq<PreviewRecord>, id: PreviewJobId) -> bool {
    exists|i: int| preview_at(p, id, i) && p[i].execution is Queued
}

/// The queue without `id`.
pub open spec fn without_id(q: Seq<OpenJobId>, id: OpenJobId) -> Seq<OpenJobId>
    decreases q.len(),
{
    if q.len() == 0 {
        q
    } else if q.last() == id {
        without_id(q.drop_last(), id)
    } else {
        without_id(q.drop_last(), id).push(q.last())
    }
}

/// Whether a job up to the cut-off is still pending.
pub open spec fn guarded(cutoff: OpenJobId, p: Seq<OpenRecord>) -> bool {
    exists|i: int| 0 <= i < p.len() && (#[trigger] p[i]).id.0 <= cutoff.0
}

/// The closed paths that still guard a pending job.
pub open spec fn kept_closed(c: Seq<(Seq<Seq<u8>>, OpenJobId)>, p: Seq<OpenRecord>) -> Seq<
    (Seq<Seq<u8>>, OpenJobId),
>
    decreases c.len(),
{
    if c.len() == 0 {
        c
    } else if guarded(c.last().1, p) {
        kept_closed(c.drop_last(), p).push(c.last())
    } else {
        kept_closed(c.drop_last(), p)
    }
}

/// What a cancel did.
#[derive(Debug, Clone, Copy, PartialEq, Eq, Structural)]
pub enum CancelEffect {
    /// Unknown, already cancelling or already finishing: nothing changed.
    Refused,
    /// A running job is marked; it keeps its slot until it publishes.
    Marked,
    /// A queued job left the queue and the registry; it finishes as cancelled.
    Dequeued,
}

/// The index of the open job `id`, if any.
fn find_open(p: &Vec<OpenRecord>, id: OpenJobId) -> (r: Option<usize>)
    ensures
        match r {
            Some(i) => job_at(p@, id, i as int),
            None => !has_job(p@, id),
        },
{
    let mut i: usize = 0;
    while i < p.len()
        invariant
            i <= p@.len(),
            forall|j: int| 0 <= j < i ==> (#[trigger] p@[j]).id != id,
        decreases p@.len() - i,
    {
        if p[i].id.0 == id.0 {
            return Some(i);
        }
        i = i + 1;
    }
    None
}

/// Ascending ids name one job at most.
proof fn lemma_unique(p: Seq<OpenRecord>, id: OpenJobId, i: int, j: int)
    requires
        ascending(p),
        job_at(p, id, i),
        job_at(p, id, j),
    ensures
        i == j,
{
    if i < j {
        assert(p[i].id.0 < p[j].id.0);
    } else if j < i {
        assert(p[j].id.0 < p[i].id.0);
    }
}

/// The queue without `id`, as [`without_id`] states it.
fn queue_without(q: &Vec<OpenJobId>, id: OpenJobId) -> (v: Vec<OpenJobId>)
    ensures
        v@ == without_id(q@, id),
        forall|k: int| 0 <= k < v@.len() ==> q@.contains(#[trigger] v@[k]),
{
    let mut v: Vec<OpenJobId> = Vec::new();
    let mut i: usize = 0;
    while i < q.len()
        invariant
            i <= q@.len(),
            v@ == without_id(q@.take(i as int), id),
            forall|k: int| 0 <= k < v@.len() ==> q@.contains(#[trigger] v@[k]),
        decreases q@.len() - i,
    {
        proof {
            assert(q@.take(i + 1).drop_last() =~= q@.take(i as int));
            assert(q@.take(i + 1).last() == q@[i as int]);
        }
        if q[i].0 != id.0 {
            v.push(q[i]);
            proof {
                assert forall|k: int| 0 <= k < v@.len() implies q@.contains(#[trigger] v@[k]) by {
                    if k == v@.len() - 1 {
                        assert(q@[i as int] == v@[k]);
                    }
                }
            }
        }
        i = i + 1;
    }
    proof {
        assert(q@.take(i as int) =~= q@);
    }
    v
}

/// Whether some pending job is numbered up to `cutoff`, as [`guarded`] states it.
fn guards(p: &Vec<OpenRecord>, cutoff: OpenJobId) -> (b: bool)
    ensures
        b == guarded(cutoff, p@),
{
    let mut i: usize = 0;
    while i < p.len()
        invariant
            i <= p@.len(),
            forall|j: int| 0 <= j < i ==> (#[trigger] p@[j]).id.0 > cutoff.0,
        decreases p@.len() - i,
    {
        if p[i].id.0 <= cutoff.0 {
            return true;
        }
        i = i + 1;
    }
    false
}

/// The closed paths that still guard a job of `p`, as [`kept_closed`] states it.
fn prune(c: &Vec<ClosedPath>, p: &Vec<OpenRecord>) -> (v: Vec<ClosedPath>)
    ensures
        closed_view(v@) == kept_closed(closed_view(c@), p@),
{
    let mut v: Vec<ClosedPath> = Vec::new();
    let mut i: usize = 0;
    while i < c.len()
        invariant
            i <= c@.len(),
            closed_view(v@) == kept_closed(closed_view(c@).take(i as int), p@),
        decreases c@.len() - i,
    {
        proof {
            assert(closed_view(c@).take(i + 1).drop_last() =~= closed_view(c@).take(i as int));
            assert(closed_view(c@).take(i + 1).last() == (path_view(c@[i as int].path), c@[i as int].cutoff));
        }
        if guards(p, c[i].cutoff) {
            let ghost before = v@;
            v.push(ClosedPath { path: copy_path(&c[i].path), cutoff: c[i].cutoff });
            proof {
                assert(closed_view(v@) =~= closed_view(before).push(closed_view(c@).take(i + 1).last()));
            }
        }
        i = i + 1;
    }
    proof {
        assert(closed_view(c@).take(i as int) =~= closed_view(c@));
    }
    v
}

/// An id left in the queue after removing `id` is not `id`.
proof fn lemma_without_excludes(q: Seq<OpenJobId>, id: OpenJobId, k: int)
    requires
        0 <= k < without_id(q, id).len(),
    ensures
        without_id(q, id)[k] != id,
    decreases q.len(),
{
    if q.len() > 0 {
        if q.last() == id {
            lemma_without_excludes(q.drop_last(), id, k);
        } else if k < without_id(q.drop_last(), id).len() {
            lemma_without_excludes(q.drop_last(), id, k);
        }
    }
}

/// Whether a queued or running job still accepts a cancel.
pub open spec fn accepts(e: Execution) -> bool {
    e is Queued || e is Running
}

/// A cancel is accepted once: once no job of `id` accepts a cancel, as
/// after any cancel of it, the job is neither queued nor running, so a second
/// cancel of it is refused and changes nothing.
pub proof fn second_cancel_is_refused(p: Seq<OpenRecord>, id: OpenJobId)
    requires
        forall|j: int| #![trigger job_at(p, id, j)] job_at(p, id, j) ==> !accepts(p[j].execution),
    ensures
        forall|i: int|
            #![trigger job_at(p, id, i)]
            job_at(p, id, i) ==> !(p[i].execution is Queued) && !(p[i].execution is Running),
{
}

/// Whether an entry was opened from `p` or resolved to it.
pub open spec fn entry_has_path(e: EntryRecord, p: Seq<Seq<u8>>) -> bool {
    path_view(e.path) == p || path_view(e.request_path) == p
}

/// Whether the entry at `i` is the first one with path `p`.
pub open spec fn first_entry(d: Seq<EntryRecord>, p: Seq<Seq<u8>>, i: int) -> bool {
    0 <= i < d.len() && entry_has_path(d[i], p) && forall|j: int|
        0 <= j < i ==> !entry_has_path(#[trigger] d[j], p)
}

/// Whether an open of `p` can join the pending job `j`.
pub open spec fn joinable(j: OpenRecord, p: Seq<Seq<u8>>) -> bool {
    &&& accepts(j.execution)
    &&& j.kind == OpenKind::Open
    &&& (path_view(j.path) == p || (j.canonical is Some && path_view(j.canonical->0) == p))
}

/// Whether the pending job at `i` is the first one an open of `p` can join.
pub open spec fn first_joinable(q: Seq<OpenRecord>, p: Seq<Seq<u8>>, i: int) -> bool {
    0 <= i < q.len() && joinable(q[i], p) && forall|j: int| 0 <= j < i ==> !joinable(#[trigger] q[j], p)
}

/// The index of the first entry with path `p`, if any.
fn find_entry_path(d: &Vec<EntryRecord>, p: &PathKey) -> (r: Option<usize>)
    ensures
        match r {
            Some(i) => first_entry(d@, path_view(*p), i as int),
            None => forall|i: int| 0 <= i < d@.len() ==> !entry_has_path(#[trigger] d@[i], path_view(*p)),
        },
{
    let mut i: usize = 0;
    while i < d.len()
        invariant
            i <= d@.len(),
            forall|j: int| 0 <= j < i ==> !entry_has_path(#[trigger] d@[j], path_view(*p)),
        decreases d@.len() - i,
    {
        if same_path(&d[i].path, p) || same_path(&d[i].request_path, p) {
            return Some(i);
        }
        i = i + 1;
    }
    None
}

/// The index of the first pending job an open of `p` can join, if any.
fn find_joinable(q: &Vec<OpenRecord>, p: &PathKey) -> (r: Option<usize>)
    ensures
        match r {
            Some(i) => first_joinable(q@, path_view(*p), i as int),
            None => forall|i: int| 0 <= i < q@.len() ==> !joinable(#[trigger] q@[i], path_view(*p)),
        },
{
    let mut i: usize = 0;
    while i < q.len()
        invariant
            i <= q@.len(),
            forall|j: int| 0 <= j < i ==> !joinable(#[trigger] q@[j], path_view(*p)),
        decreases q@.len() - i,
    {
        let job = &q[i];
        let open = match job.kind {
            OpenKind::Open => true,
            OpenKind::Reload => false,
        };
        let path_ok = same_path(&job.path, p) || match &job.canonical {
            Some(c) => same_path(c, p),
            None => false,
        };
        if job.execution.accepts_cancel() && open && path_ok {
            return Some(i);
        }
        i = i + 1;
    }
    None
}

/// How an open request was admitted.
#[derive(Debug, Clone, Copy, PartialEq, Eq, Structural)]
pub enum OpenAdmission {
    /// The path is open already: a job id that finishes at once, the document
    /// (now active) and its current revision.
    Reused { job: OpenJobId, document: DocumentId, revision: RevisionId },
    /// A pending open of the same path takes the request and the activation intent.
    Joined(OpenJobId),
    /// A new queued job that holds the activation intent.
    Queued(OpenJobId),
}

/// Whether two registries hold the same state.
pub open spec fn unchanged(a: Registry, b: Registry) -> bool {
    &&& a.documents() == b.documents()
    &&& a.active() == b.active()
    &&& a.activation() == b.activation()
    &&& a.pending() == b.pending()
    &&& a.queue() == b.queue()
    &&& a.previews() == b.previews()
    &&& a.preview_queue() == b.preview_queue()
    &&& a.is_stopping() == b.is_stopping()
    &&& a.last_job() == b.last_job()
    &&& a.closed() == b.closed()
    &&& a.version() == b.version()
    &&& a.selections() == b.selections()
}

/// The selection version after activating `next` where `active` was active.
pub open spec fn activated_version(active: Option<DocumentId>, version: u64, next: Option<DocumentId>) -> u64 {
    if active != next {
        (version + 1) as u64
    } else {
        version
    }
}

/// Which pending jobs a bulk cancel reaches.
#[derive(Debug)]
pub enum CancelRule {
    /// Reloads of the document that still accept a cancel.
    Reloads(DocumentId),
    /// Jobs of a closed document, or of its canonical or requested path.
    Closed { document: DocumentId, path: PathKey, request_path: PathKey },
    /// Every job.
    All,
    /// The listed jobs.
    Jobs(Vec<OpenJobId>),
}

/// Whether a bulk cancel under `rule` reaches the job `j`.
pub open spec fn hits(rule: CancelRule, j: OpenRecord) -> bool {
    match rule {
        CancelRule::Reloads(d) => j.document == d && j.kind == OpenKind::Reload && accepts(j.execution),
        CancelRule::Closed { document, path, request_path } => {
            ||| j.document == document
            ||| path_view(j.path) == path_view(request_path)
            ||| path_view(j.path) == path_view(path)
            ||| (j.canonical is Some && path_view(j.canonical->0) == path_view(path))
        },
        CancelRule::All => true,
        CancelRule::Jobs(ids) => ids@.contains(j.id),
    }
}

/// The job `j` after a cancel: gone if it was queued, marked if it was running.
pub open spec fn cancelled_job(rest: Seq<OpenRecord>, j: OpenRecord) -> Seq<OpenRecord> {
    match j.execution {
        Execution::Queued => rest,
        Execution::Running(at) => rest.push(OpenRecord { execution: Execution::Cancelling(at), ..j }),
        _ => rest.push(j),
    }
}

/// The pending jobs after cancelling every job that `rule` reaches.
pub open spec fn after_cancel(p: Seq<OpenRecord>, rule: CancelRule) -> Seq<OpenRecord>
    decreases p.len(),
{
    if p.len() == 0 {
        p
    } else {
        let rest = after_cancel(p.drop_last(), rule);
        if hits(rule, p.last()) {
            cancelled_job(rest, p.last())
        } else {
            rest.push(p.last())
        }
    }
}

/// The queued jobs that a bulk cancel under `rule` removes, in order.
pub open spec fn dequeued_ids(p: Seq<OpenRecord>, rule: CancelRule) -> Seq<OpenJobId>
    decreases p.len(),
{
    if p.len() == 0 {
        Seq::empty()
    } else {
        let rest = dequeued_ids(p.drop_last(), rule);
        if hits(rule, p.last()) && p.last().execution is Queued {
            rest.push(p.last().id)
        } else {
            rest
        }
    }
}

/// The queue without the ids in `ids`.
pub open spec fn without_ids(q: Seq<OpenJobId>, ids: Seq<OpenJobId>) -> Seq<OpenJobId>
    decreases q.len(),
{
    if q.len() == 0 {
        q
    } else if ids.contains(q.last()) {
        without_ids(q.drop_last(), ids)
    } else {
        without_ids(q.drop_last(), ids).push(q.last())
    }
}

/// Every job left after a bulk cancel keeps the id of a job before it.
proof fn lemma_after_cancel_ids(p: Seq<OpenRecord>, rule: CancelRule)
    ensures
        forall|k: int|
            0 <= k < after_cancel(p, rule).len() ==> exists|i: int|
                0 <= i < p.len() && (#[trigger] after_cancel(p, rule)[k]).id == p[i].id,
    decreases p.len(),
{
    if p.len() > 0 {
        let q = p.drop_last();
        lemma_after_cancel_ids(q, rule);
        let rest = after_cancel(q, rule);
        assert forall|k: int| 0 <= k < after_cancel(p, rule).len() implies exists|i: int|
            0 <= i < p.len() && (#[trigger] after_cancel(p, rule)[k]).id == p[i].id by {
            if k < rest.len() {
                assert(after_cancel(p, rule)[k] == rest[k]);
                let i = choose|i: int| 0 <= i < q.len() && rest[k].id == q[i].id;
                assert(p[i] == q[i]);
            } else {
                assert(after_cancel(p, rule)[k].id == p[p.len() - 1].id);
            }
        }
    }
}

/// A bulk cancel keeps job ids ascending.
proof fn lemma_after_cancel_ascending(p: Seq<OpenRecord>, rule: CancelRule)
    requires
        ascending(p),
    ensures
        ascending(after_cancel(p, rule)),
    decreases p.len(),
{
    if p.len() > 0 {
        let q = p.drop_last();
        assert(ascending(q)) by {
            assert forall|i: int, j: int| 0 <= i < j < q.len() implies (#[trigger] q[i]).id.0 < (#[trigger] q[j]).id.0 by {
                assert(p[i] == q[i] && p[j] == q[j]);
            }
        }
        lemma_after_cancel_ascending(q, rule);
        lemma_after_cancel_ids(q, rule);
        let rest = after_cancel(q, rule);
        let r = after_cancel(p, rule);
        assert forall|i: int, j: int| 0 <= i < j < r.len() implies (#[trigger] r[i]).id.0 < (#[trigger] r[j]).id.0 by {
            if j < rest.len() {
                assert(r[i] == rest[i] && r[j] == rest[j]);
            } else {
                assert(r[i] == rest[i]);
                let m = choose|m: int| 0 <= m < q.len() && rest[i].id == q[m].id;
                assert(p[m] == q[m]);
                assert(p[m].id.0 < p[p.len() - 1].id.0);
            }
        }
    }
}

/// A queued job that a bulk cancel does not reach stays, unchanged; one it
/// reaches is among the dequeued ids.
proof fn lemma_after_cancel_queued(p: Seq<OpenRecord>, rule: CancelRule, i: int)
    requires
        0 <= i < p.len(),
        p[i].execution is Queued,
    ensures
        !hits(rule, p[i]) ==> exists|k: int| 0 <= k < after_cancel(p, rule).len() && #[trigger] after_cancel(p, rule)[k] == p[i],
        hits(rule, p[i]) ==> dequeued_ids(p, rule).contains(p[i].id),
    decreases p.len(),
{
    let q = p.drop_last();
    let rest = after_cancel(q, rule);
    if i < p.len() - 1 {
        assert(p[i] == q[i]);
        lemma_after_cancel_queued(q, rule, i);
        if !hits(rule, p[i]) {
            let k = choose|k: int| 0 <= k < rest.len() && #[trigger] rest[k] == q[i];
            assert(after_cancel(p, rule)[k] == rest[k]);
        } else {
            let d = dequeued_ids(q, rule);
            let m = choose|m: int| 0 <= m < d.len() && d[m] == p[i].id;
            assert(dequeued_ids(p, rule)[m] == d[m]);
        }
    } else {
        if !hits(rule, p[i]) {
            assert(after_cancel(p, rule)[rest.len() as int] == p[i]);
        } else {
            assert(dequeued_ids(p, rule) == dequeued_ids(q, rule).push(p[i].id));
            assert(dequeued_ids(p, rule)[dequeued_ids(q, rule).len() as int] == p[i].id);
        }
    }
}

/// An id kept in the queue is not among the removed ids, and was in the queue.
proof fn lemma_without_ids(q: Seq<OpenJobId>, ids: Seq<OpenJobId>, k: int)
    requires
        0 <= k < without_ids(q, ids).len(),
    ensures
        !ids.contains(without_ids(q, ids)[k]),
        q.contains(without_ids(q, ids)[k]),
    decreases q.len(),
{
    let rest = without_ids(q.drop_last(), ids);
    if q.len() > 0 {
        if ids.contains(q.last()) || k < rest.len() {
            lemma_without_ids(q.drop_last(), ids, k);
            let x = without_ids(q, ids)[k];
            let m = choose|m: int| 0 <= m < q.drop_last().len() && q.drop_last()[m] == x;
            assert(q[m] == x);
        } else {
            assert(q[q.len() - 1] == without_ids(q, ids)[k]);
        }
    }
}

/// The queue without the ids in `ids`, as [`without_ids`] states it.
fn queue_without_all(q: &Vec<OpenJobId>, ids: &Vec<OpenJobId>) -> (v: Vec<OpenJobId>)
    ensures
        v@ == without_ids(q@, ids@),
{
    let mut v: Vec<OpenJobId> = Vec::new();
    let mut i: usize = 0;
    while i < q.len()
        invariant
            i <= q@.len(),
            v@ == without_ids(q@.take(i as int), ids@),
        decreases q@.len() - i,
    {
        proof {
            assert(q@.take(i + 1).drop_last() =~= q@.take(i as int));
            assert(q@.take(i + 1).last() == q@[i as int]);
        }
        let mut found = false;
        let mut k: usize = 0;
        while k < ids.len()
            invariant
                i < q@.len(),
                k <= ids@.len(),
                found == exists|m: int| 0 <= m < k && ids@[m] == q@[i as int],
            decreases ids@.len() - k,
        {
            if ids[k].0 == q[i].0 {
                found = true;
            }
            k = k + 1;
        }
        if !found {
            v.push(q[i]);
        }
        i = i + 1;
    }
    proof {
        assert(q@.take(i as int) =~= q@);
    }
    v
}

/// Whether a bulk cancel under `rule` reaches the job `j`, as [`hits`] states it.
fn rule_hits(rule: &CancelRule, j: &OpenRecord) -> (b: bool)
    ensures
        b == hits(*rule, *j),
{
    match rule {
        CancelRule::Reloads(d) => {
            let reload = match j.kind {
                OpenKind::Reload => true,
                OpenKind::Open => false,
            };
            j.document.0 == d.0 && reload && j.execution.accepts_cancel()
        },
        CancelRule::Closed { document, path, request_path } => {
            j.document.0 == document.0 || same_path(&j.path, request_path) || same_path(&j.path, path)
                || match &j.canonical {
                Some(c) => same_path(c, path),
                None => false,
            }
        },
        CancelRule::All => true,
        CancelRule::Jobs(ids) => {
            let mut found = false;
            let mut k: usize = 0;
            while k < ids.len()
                invariant
                    k <= ids@.len(),
                    found == exists|m: int| 0 <= m < k && ids@[m] == j.id,
                decreases ids@.len() - k,
            {
                if ids[k].0 == j.id.0 {
                    found = true;
                }
                k = k + 1;
            }
            found
        },
    }
}

/// Whether some entry is the document `d`.
pub open spec fn has_document(docs: Seq<EntryRecord>, d: DocumentId) -> bool {
    exists|i: int| 0 <= i < docs.len() && (#[trigger] docs[i]).document == d
}

/// The index of the first entry of document `d`, if any.
fn find_document(docs: &Vec<EntryRecord>, d: DocumentId) -> (r: Option<usize>)
    ensures
        match r {
            Some(i) => i < docs@.len() && docs@[i as int].document == d && forall|j: int|
                0 <= j < i ==> (#[trigger] docs@[j]).document != d,
            None => !has_document(docs@, d),
        },
{
    let mut i: usize = 0;
    while i < docs.len()
        invariant
            i <= docs@.len(),
            forall|j: int| 0 <= j < i ==> (#[trigger] docs@[j]).document != d,
        decreases docs@.len() - i,
    {
        if docs[i].document.0 == d.0 {
            return Some(i);
        }
        i = i + 1;
    }
    None
}

/// Whether cancelling the previews of `document` (all previews for `None`) reaches `r`.
pub open spec fn preview_hits(document: Option<DocumentId>, r: PreviewRecord) -> bool {
    document is None || r.key.document == document->0
}

/// A preview job after a cancel: a queued one starts finishing at `now`, a
/// running one is marked.
pub open spec fn preview_cancelled(r: PreviewRecord, now: std::time::Instant) -> PreviewRecord {
    match r.execution {
        Execution::Queued => PreviewRecord { execution: Execution::Finishing(now), ..r },
        Execution::Running(at) => PreviewRecord { execution: Execution::Cancelling(at), ..r },
        _ => r,
    }
}

/// The preview jobs after cancelling those of `document`.
pub open spec fn after_preview_cancel(p: Seq<PreviewRecord>, document: Option<DocumentId>, now: std::time::Instant) -> Seq<
    PreviewRecord,
> {
    p.map_values(
        |r: PreviewRecord|
            if preview_hits(document, r) {
                preview_cancelled(r, now)
            } else {
                r
            },
    )
}

/// The queued preview jobs that cancelling those of `document` takes out of the queue.
pub open spec fn preview_dequeued(p: Seq<PreviewRecord>, document: Option<DocumentId>) -> Seq<PreviewJobId>
    decreases p.len(),
{
    if p.len() == 0 {
        Seq::empty()
    } else {
        let rest = preview_dequeued(p.drop_last(), document);
        if preview_hits(document, p.last()) && p.last().execution is Queued {
            rest.push(p.last().id)
        } else {
            rest
        }
    }
}

/// The preview queue without the ids in `ids`.
pub open spec fn without_previews(q: Seq<PreviewJobId>, ids: Seq<PreviewJobId>) -> Seq<PreviewJobId>
    decreases q.len(),
{
    if q.len() == 0 {
        q
    } else if ids.contains(q.last()) {
        without_previews(q.drop_last(), ids)
    } else {
        without_previews(q.drop_last(), ids).push(q.last())
    }
}

/// A queued preview that is not cancelled stays queued; one that is
/// cancelled is among the dequeued ids.
proof fn lemma_preview_dequeued(p: Seq<PreviewRecord>, document: Option<DocumentId>, i: int)
    requires
        0 <= i < p.len(),
        p[i].execution is Queued,
        preview_hits(document, p[i]),
    ensures
        preview_dequeued(p, document).contains(p[i].id),
    decreases p.len(),
{
    let q = p.drop_last();
    if i < p.len() - 1 {
        assert(p[i] == q[i]);
        lemma_preview_dequeued(q, document, i);
        let d = preview_dequeued(q, document);
        let m = choose|m: int| 0 <= m < d.len() && d[m] == p[i].id;
        assert(preview_dequeued(p, document)[m] == d[m]);
    } else {
        assert(preview_dequeued(p, document)[preview_dequeued(q, document).len() as int] == p[i].id);
    }
}

/// An id kept in the preview queue is not among the removed ids, and was in the queue.
proof fn lemma_without_previews(q: Seq<PreviewJobId>, ids: Seq<PreviewJobId>, k: int)
    requires
        0 <= k < without_previews(q, ids).len(),
    ensures
        !ids.contains(without_previews(q, ids)[k]),
        q.contains(without_previews(q, ids)[k]),
    decreases q.len(),
{
    let rest = without_previews(q.drop_last(), ids);
    if q.len() > 0 {
        if ids.contains(q.last()) || k < rest.len() {
            lemma_without_previews(q.drop_last(), ids, k);
            let x = without_previews(q, ids)[k];
            let m = choose|m: int| 0 <= m < q.drop_last().len() && q.drop_last()[m] == x;
            assert(q[m] == x);
        } else {
            assert(q[q.len() - 1] == without_previews(q, ids)[k]);
        }
    }
}

/// The preview queue without the ids in `ids`, as [`without_previews`] states it.
fn previews_without(q: &Vec<PreviewJobId>, ids: &Vec<PreviewJobId>) -> (v: Vec<PreviewJobId>)
    ensures
        v@ == without_previews(q@, ids@),
{
    let mut v: Vec<PreviewJobId> = Vec::new();
    let mut i: usize = 0;
    while i < q.len()
        invariant
            i <= q@.len(),
            v@ == without_previews(q@.take(i as int), ids@),
        decreases q@.len() - i,
    {
        proof {
            assert(q@.take(i + 1).drop_last() =~= q@.take(i as int));
            assert(q@.take(i + 1).last() == q@[i as int]);
        }
        let mut found = false;
        let mut k: usize = 0;
        while k < ids.len()
            invariant
                i < q@.len(),
                k <= ids@.len(),
                found == exists|m: int| 0 <= m < k && ids@[m] == q@[i as int],
            decreases ids@.len() - k,
        {
            if ids[k].0 == q[i].0 {
                found = true;
            }
            k = k + 1;
        }
        if !found {
            v.push(q[i]);
        }
        i = i + 1;
    }
    proof {
        assert(q@.take(i as int) =~= q@);
    }
    v
}

/// How a preview request was admitted.
#[derive(Debug, Clone)]
pub enum PreviewAdmission {
    /// A pending preview of the same revision takes the request.
    Joined(PreviewJobId),
    /// The cache answered: a job id that finishes at once, and the image.
    Hit(PreviewJobId, PreviewLease),
    /// A new queued preview job.
    Queued(PreviewJobId),
}

/// Whether the preview job at `i` is the first pending one for `key` that
/// still accepts a cancel.
pub open spec fn first_preview_for(p: Seq<PreviewRecord>, key: Key, i: int) -> bool {
    &&& 0 <= i < p.len()
    &&& p[i].key == key && accepts(p[i].execution)
    &&& forall|j: int| 0 <= j < i ==> !((#[trigger] p[j]).key == key && accepts(p[j].execution))
}

/// Queued open ids ascend: the queue runs in order of admission.
pub open spec fn queue_ascending(q: Seq<OpenJobId>) -> bool {
    forall|a: int, b: int| 0 <= a < b < q.len() ==> (#[trigger] q[a]).0 < (#[trigger] q[b]).0
}

/// Queued preview ids ascend: the queue runs in order of admission.
pub open spec fn preview_queue_ascending(q: Seq<PreviewJobId>) -> bool {
    forall|a: int, b: int| 0 <= a < b < q.len() ==> (#[trigger] q[a]).0 < (#[trigger] q[b]).0
}

/// Removing ids keeps a queue ascending.
proof fn lemma_without_id_ascending(q: Seq<OpenJobId>, id: OpenJobId)
    requires
        queue_ascending(q),
    ensures
        queue_ascending(without_id(q, id)),
        forall|k: int| 0 <= k < without_id(q, id).len() ==> q.contains(#[trigger] without_id(q, id)[k]),
    decreases q.len(),
{
    if q.len() > 0 {
        let d = q.drop_last();
        assert(queue_ascending(d)) by {
            assert forall|a: int, b: int| 0 <= a < b < d.len() implies (#[trigger] d[a]).0 < (#[trigger] d[b]).0 by {
                assert(q[a] == d[a] && q[b] == d[b]);
            }
        }
        lemma_without_id_ascending(d, id);
        let w = without_id(q, id);
        let wd = without_id(d, id);
        assert forall|k: int| 0 <= k < w.len() implies q.contains(#[trigger] w[k]) by {
            if k < wd.len() {
                assert(w[k] == wd[k]);
                let m = choose|m: int| 0 <= m < d.len() && d[m] == wd[k];
                assert(q[m] == d[m]);
            } else {
                assert(w[k] == q[q.len() - 1]);
            }
        }
        assert forall|a: int, b: int| 0 <= a < b < w.len() implies (#[trigger] w[a]).0 < (#[trigger] w[b]).0 by {
            if b < wd.len() {
                assert(w[a] == wd[a] && w[b] == wd[b]);
            } else {
                assert(w[a] == wd[a]);
                let m = choose|m: int| 0 <= m < d.len() && d[m] == wd[a];
                assert(q[m] == d[m]);
            }
        }
    }
}

/// Removing a set of ids keeps a queue ascending.
proof fn lemma_without_ids_ascending(q: Seq<OpenJobId>, ids: Seq<OpenJobId>)
    requires
        queue_ascending(q),
    ensures
        queue_ascending(without_ids(q, ids)),
    decreases q.len(),
{
    if q.len() > 0 {
        let d = q.drop_last();
        assert(queue_ascending(d)) by {
            assert forall|a: int, b: int| 0 <= a < b < d.len() implies (#[trigger] d[a]).0 < (#[trigger] d[b]).0 by {
                assert(q[a] == d[a] && q[b] == d[b]);
            }
        }
        lemma_without_ids_ascending(d, ids);
        let w = without_ids(q, ids);
        let wd = without_ids(d, ids);
        assert forall|a: int, b: int| 0 <= a < b < w.len() implies (#[trigger] w[a]).0 < (#[trigger] w[b]).0 by {
            if b < wd.len() {
                assert(w[a] == wd[a] && w[b] == wd[b]);
            } else {
                assert(w[a] == wd[a]);
                lemma_without_ids(d, ids, a);
                let m = choose|m: int| 0 <= m < d.len() && d[m] == wd[a];
                assert(q[m] == d[m]);
            }
        }
    }
}

/// Removing a set of ids keeps a preview queue ascending.
proof fn lemma_without_previews_ascending(q: Seq<PreviewJobId>, ids: Seq<PreviewJobId>)
    requires
        preview_queue_ascending(q),
    ensures
        preview_queue_ascending(without_previews(q, ids)),
    decreases q.len(),
{
    if q.len() > 0 {
        let d = q.drop_last();
        assert(preview_queue_ascending(d)) by {
            assert forall|a: int, b: int| 0 <= a < b < d.len() implies (#[trigger] d[a]).0 < (#[trigger] d[b]).0 by {
                assert(q[a] == d[a] && q[b] == d[b]);
            }
        }
        lemma_without_previews_ascending(d, ids);
        let w = without_previews(q, ids);
        let wd = without_previews(d, ids);
        assert forall|a: int, b: int| 0 <= a < b < w.len() implies (#[trigger] w[a]).0 < (#[trigger] w[b]).0 by {
            if b < wd.len() {
                assert(w[a] == wd[a] && w[b] == wd[b]);
            } else {
                assert(w[a] == wd[a]);
                lemma_without_previews(d, ids, a);
                let m = choose|m: int| 0 <= m < d.len() && d[m] == wd[a];
                assert(q[m] == d[m]);
            }
        }
    }
}

/// Whether the cached image at `i` is the first one for `key`.
pub open spec fn first_cached(c: Seq<PreviewLease>, key: Key, i: int) -> bool {
    0 <= i < c.len() && c[i].0.key() == key && forall|j: int| 0 <= j < i ==> (#[trigger] c[j]).0.key() != key
}

/// What the worker does next.
#[derive(Debug)]
pub enum Next {
    /// The service is stopping: the worker ends.
    Stop,
    /// Both queues are empty: the worker waits.
    Wait,
    /// Render the preview job.
    Preview { id: PreviewJobId, key: Key },
    /// Run the open or reload job.
    Open { id: OpenJobId, document: DocumentId, kind: OpenKind, path: PathKey },
}

/// The index of the first pending preview for `key` that accepts a cancel, if any.
fn find_preview_for(p: &Vec<PreviewRecord>, key: Key) -> (r: Option<usize>)
    ensures
        match r {
            Some(i) => first_preview_for(p@, key, i as int),
            None => forall|i: int| 0 <= i < p@.len() ==> !((#[trigger] p@[i]).key == key && accepts(p@[i].execution)),
        },
{
    let mut i: usize = 0;
    while i < p.len()
        invariant
            i <= p@.len(),
            forall|j: int| 0 <= j < i ==> !((#[trigger] p@[j]).key == key && accepts(p@[j].execution)),
        decreases p@.len() - i,
    {
        if p[i].key == key && p[i].execution.accepts_cancel() {
            return Some(i);
        }
        i = i + 1;
    }
    None
}

/// The index of the preview job `id`, if any.
fn find_preview(p: &Vec<PreviewRecord>, id: PreviewJobId) -> (r: Option<usize>)
    ensures
        match r {
            Some(i) => preview_at(p@, id, i as int),
            None => forall|i: int| 0 <= i < p@.len() ==> (#[trigger] p@[i]).id != id,
        },
{
    let mut i: usize = 0;
    while i < p.len()
        invariant
            i <= p@.len(),
            forall|j: int| 0 <= j < i ==> (#[trigger] p@[j]).id != id,
        decreases p@.len() - i,
    {
        if p[i].id.0 == id.0 {
            return Some(i);
        }
        i = i + 1;
    }
    None
}

/// What the worker's locked check of a resolved path decided.
#[derive(Debug, Clone, Copy, PartialEq, Eq, Structural)]
pub enum Resolution {
    /// The job was cancelled, or its path closed after it was admitted.
    Cancelled,
    /// An open document already has the canonical path.
    Reused { document: DocumentId, revision: RevisionId },
    /// The file must be read.
    Load,
}

/// What the worker computed for an open or reload job.
#[derive(Debug)]
pub enum Computed {
    Failed,
    Cancelled,
    Reused { document: DocumentId, revision: RevisionId },
    /// A revision was read from the canonical path.
    Loaded { path: PathKey },
}

/// The published result of an open or reload job.
#[derive(Debug, Clone, Copy, PartialEq, Eq, Structural)]
pub enum PublishOutcome {
    Opened { document_id: DocumentId, revision_id: RevisionId, reused: bool },
    Cancelled,
    Failed,
    /// The publication would change the active document or its revision,
    /// and the selection version is exhausted: nothing is published.
    Exhausted,
}

/// What becomes of the revisions a publication touches.
#[derive(Debug, Clone, Copy, PartialEq, Eq, Structural)]
pub enum RevisionFate {
    /// No revision was read.
    Nothing,
    /// The revision read is dropped unpublished.
    Discard,
    /// The revision read becomes a new entry.
    Insert,
    /// The revision read replaces the entry's current revision, which is dropped.
    Replace(RevisionId),
}

/// The result of a publication: the outcome, the fate of the revisions, and
/// the preview jobs of a reloaded document that left the queue.
#[derive(Debug)]
pub struct Published {
    pub outcome: PublishOutcome,
    pub fate: RevisionFate,
    pub previews: Vec<PreviewJobId>,
}

/// Whether a closed path stops the job `id` from opening `p`.
pub open spec fn closed_for(c: Seq<(Seq<Seq<u8>>, OpenJobId)>, p: Seq<Seq<u8>>, id: OpenJobId) -> bool {
    exists|k: int| 0 <= k < c.len() && (#[trigger] c[k]).0 == p && id.0 <= c[k].1.0
}

/// Whether the entry at `i` is the first one whose canonical path is `p`.
pub open spec fn first_canonical(d: Seq<EntryRecord>, p: Seq<Seq<u8>>, i: int) -> bool {
    0 <= i < d.len() && path_view(d[i].path) == p && forall|j: int|
        0 <= j < i ==> path_view((#[trigger] d[j]).path) != p
}

/// Whether the entry at `i` is the first one of document `d`.
pub open spec fn first_document(docs: Seq<EntryRecord>, d: DocumentId, i: int) -> bool {
    0 <= i < docs.len() && docs[i].document == d && forall|j: int| 0 <= j < i ==> (#[trigger] docs[j]).document != d
}

/// Whether a finished job publishes nothing: it was cancelled, the service
/// is stopping, or the document it reloads is gone.
pub open spec fn publish_cancelled(job: OpenRecord, stopping: bool, docs: Seq<EntryRecord>) -> bool {
    job.execution is Cancelling || stopping || (job.kind == OpenKind::Reload && !has_document(docs, job.document))
}

/// The phase a job enters to publish: finishing since it started.
pub open spec fn finishing(e: Execution) -> Execution {
    match e {
        Execution::Running(at) => Execution::Finishing(at),
        Execution::Cancelling(at) => Execution::Finishing(at),
        _ => e,
    }
}

/// Whether the closed path at `k` stops the job `id` from opening `p`.
fn closed_match(c: &Vec<ClosedPath>, p: &PathKey, id: OpenJobId) -> (b: bool)
    ensures
        b == closed_for(closed_view(c@), path_view(*p), id),
{
    let mut k: usize = 0;
    while k < c.len()
        invariant
            k <= c@.len(),
            forall|m: int| 0 <= m < k ==> !((#[trigger] closed_view(c@)[m]).0 == path_view(*p) && id.0 <= closed_view(c@)[m].1.0),
        decreases c@.len() - k,
    {
        if same_path(&c[k].path, p) && id.0 <= c[k].cutoff.0 {
            proof {
                assert(closed_view(c@)[k as int].0 == path_view(*p));
            }
            return true;
        }
        k = k + 1;
    }
    false
}

/// The index of the first entry whose canonical path is `p`, if any.
fn find_canonical(d: &Vec<EntryRecord>, p: &PathKey) -> (r: Option<usize>)
    ensures
        match r {
            Some(i) => first_canonical(d@, path_view(*p), i as int),
            None => forall|i: int| 0 <= i < d@.len() ==> path_view((#[trigger] d@[i]).path) != path_view(*p),
        },
{
    let mut i: usize = 0;
    while i < d.len()
        invariant
            i <= d@.len(),
            forall|j: int| 0 <= j < i ==> path_view((#[trigger] d@[j]).path) != path_view(*p),
        decreases d@.len() - i,
    {
        if same_path(&d[i].path, p) {
            return Some(i);
        }
        i = i + 1;
    }
    None
}

/// The active document after closing `document`, which stood at `k` before
/// the remaining entries `rest`: its right neighbour, else its left one,
/// when it was active.
pub open spec fn focus_after_close(
    active: Option<DocumentId>,
    document: DocumentId,
    rest: Seq<EntryRecord>,
    k: int,
) -> Option<DocumentId> {
    if active != Some(document) {
        active
    } else if k < rest.len() {
        Some(rest[k].document)
    } else if k > 0 {
        Some(rest[k - 1].document)
    } else {
        None
    }
}

/// Closing moves focus only when it closes the active document: closing
/// another document keeps the active one; closing the active one focuses its
/// right neighbour, else its left one, and nothing only when no document is
/// left; the closed document is never the one focused after it.
pub proof fn close_moves_only_the_active_focus(
    active: Option<DocumentId>,
    document: DocumentId,
    rest: Seq<EntryRecord>,
    k: int,
)
    requires
        0 <= k <= rest.len(),
    ensures
        active != Some(document) ==> focus_after_close(active, document, rest, k) == active,
        active == Some(document) ==> {
            &&& (focus_after_close(active, document, rest, k) is None <==> rest.len() == 0)
            &&& k < rest.len() ==> focus_after_close(active, document, rest, k) == Some(
                rest[k].document,
            )
            &&& k == rest.len() && k > 0 ==> focus_after_close(active, document, rest, k) == Some(
                rest[k - 1].document,
            )
        },
{
}

/// Two rules that reach the same jobs cancel the same way.
proof fn lemma_after_cancel_same_rule(p: Seq<OpenRecord>, a: CancelRule, b: CancelRule)
    requires
        forall|j: OpenRecord| hits(a, j) == hits(b, j),
    ensures
        after_cancel(p, a) == after_cancel(p, b),
        dequeued_ids(p, a) == dequeued_ids(p, b),
    decreases p.len(),
{
    if p.len() > 0 {
        lemma_after_cancel_same_rule(p.drop_last(), a, b);
        assert(hits(a, p.last()) == hits(b, p.last()));
    }
}

/// The number of queued jobs a bulk cancel would take out of the queue.
fn count_dequeued(p: &Vec<OpenRecord>, rule: &CancelRule) -> (n: usize)
    ensures
        n == dequeued_ids(p@, *rule).len(),
{
    let mut n: usize = 0;
    let mut i: usize = 0;
    while i < p.len()
        invariant
            i <= p@.len(),
            n == dequeued_ids(p@.take(i as int), *rule).len(),
            n <= i,
        decreases p@.len() - i,
    {
        proof {
            assert(p@.take(i + 1).drop_last() =~= p@.take(i as int));
            assert(p@.take(i + 1).last() == p@[i as int]);
        }
        let queued = match p[i].execution {
            Execution::Queued => true,
            _ => false,
        };
        if rule_hits(rule, &p[i]) && queued {
            n = n + 1;
        }
        i = i + 1;
    }
    proof {
        assert(p@.take(i as int) =~= p@);
    }
    n
}

/// A bulk cancel dequeues at most every job.
proof fn lemma_dequeued_len(p: Seq<OpenRecord>, rule: CancelRule)
    ensures
        dequeued_ids(p, rule).len() <= p.len(),
    decreases p.len(),
{
    if p.len() > 0 {
        lemma_dequeued_len(p.drop_last(), rule);
    }
}

/// What the worker rendered for a preview job.
#[derive(Debug)]
pub enum Rendered {
    Image(PreviewLease),
    Cancelled,
    Failed,
}

/// The published result of a preview job.
#[derive(Debug)]
pub enum PreviewPublished {
    Ready(PreviewLease),
    Cancelled,
    Failed,
}

/// Whether some entry currently holds the revision `revision`.
pub open spec fn current_revision(docs: Seq<EntryRecord>, revision: RevisionId) -> bool {
    exists|i: int| 0 <= i < docs.len() && (#[trigger] docs[i]).revision == revision
}

/// Whether some entry currently holds `revision`, as [`current_revision`] states it.
fn is_current(docs: &Vec<EntryRecord>, revision: RevisionId) -> (b: bool)
    ensures
        b == current_revision(docs@, revision),
{
    let mut i: usize = 0;
    while i < docs.len()
        invariant
            i <= docs@.len(),
            forall|j: int| 0 <= j < i ==> (#[trigger] docs@[j]).revision != revision,
        decreases docs@.len() - i,
    {
        if docs[i].revision.0 == revision.0 {
            return true;
        }
        i = i + 1;
    }
    false
}

/// Why a selection change on `document` at `revision`, expecting selection
/// version `expected`, is refused, if it is.
pub open spec fn selection_refusal(
    stopping: bool,
    docs: Seq<EntryRecord>,
    active: Option<DocumentId>,
    version: u64,
    document: DocumentId,
    revision: RevisionId,
    expected: u64,
) -> Option<SelectionError> {
    if stopping {
        Some(SelectionError::Document(DocumentError::ShuttingDown))
    } else if !has_document(docs, document) {
        Some(SelectionError::Document(DocumentError::NotFound(document)))
    } else if docs[choose|i: int| first_document(docs, document, i)].revision != revision {
        Some(SelectionError::Document(DocumentError::StaleRevision))
    } else if active != Some(document) {
        Some(SelectionError::InactiveDocument)
    } else if version != expected {
        Some(SelectionError::StaleSelection)
    } else {
        None
    }
}

/// The selection cache after keeping `previous` (if any) as the newest
/// entry and evicting the oldest beyond `limit`: the evicted ones and the rest.
pub open spec fn cache_after(
    cache: Seq<(SnapshotId, DocumentId)>,
    previous: Option<(SnapshotId, DocumentId)>,
    limit: usize,
) -> (Seq<(SnapshotId, DocumentId)>, Seq<(SnapshotId, DocumentId)>) {
    let c = match previous {
        Some(p) => cache.push(p),
        None => cache,
    };
    let count = if c.len() > limit {
        c.len() - limit
    } else {
        0
    };
    (c.take(count), c.skip(count))
}

/// The cached selections of documents other than `document`.
pub open spec fn cache_without(c: Seq<(SnapshotId, DocumentId)>, document: DocumentId) -> Seq<(SnapshotId, DocumentId)>
    decreases c.len(),
{
    if c.len() == 0 {
        c
    } else if c.last().1 == document {
        cache_without(c.drop_last(), document)
    } else {
        cache_without(c.drop_last(), document).push(c.last())
    }
}

/// The cached selections of `document`.
pub open spec fn cache_of(c: Seq<(SnapshotId, DocumentId)>, document: DocumentId) -> Seq<(SnapshotId, DocumentId)>
    decreases c.len(),
{
    if c.len() == 0 {
        c
    } else if c.last().1 == document {
        cache_of(c.drop_last(), document).push(c.last())
    } else {
        cache_of(c.drop_last(), document)
    }
}

/// The selection state a caller samples: the version, and the active
/// document with its revision and committed selection.
#[derive(Debug, Clone, Copy)]
pub struct Captured {
    pub version: u64,
    pub active: Option<(DocumentId, RevisionId, Option<SnapshotId>)>,
}

/// The sample of the active document among `docs`.
pub open spec fn captured_active(docs: Seq<EntryRecord>, active: Option<DocumentId>) -> Option<
    (DocumentId, RevisionId, Option<SnapshotId>),
> {
    match active {
        None => None,
        Some(d) => if has_document(docs, d) {
            let e = docs[choose|i: int| first_document(docs, d, i)];
            Some((e.document, e.revision, e.selection))
        } else {
            None
        },
    }
}

/// What closing a document released: its entry, the dequeued open and
/// preview jobs, and its cached earlier selections.
#[derive(Debug)]
pub struct Closed {
    pub entry: EntryRecord,
    pub jobs: Vec<OpenJobId>,
    pub previews: Vec<PreviewJobId>,
    pub selections: Vec<(SnapshotId, DocumentId)>,
}

/// A revision of a document still referenced somewhere: its id, its path,
/// and whether a cleanup already invalidated it.
#[derive(Debug)]
pub struct LiveRevision {
    pub id: RevisionId,
    pub path: PathKey,
    pub invalidated: bool,
}

/// The revisions a cleanup reaches: those not yet invalidated.
pub open spec fn live_ids(revs: Seq<LiveRevision>) -> Seq<RevisionId>
    decreases revs.len(),
{
    if revs.len() == 0 {
        Seq::empty()
    } else if revs.last().invalidated {
        live_ids(revs.drop_last())
    } else {
        live_ids(revs.drop_last()).push(revs.last().id)
    }
}

/// The paths of the revisions a cleanup reaches, in order.
pub open spec fn live_paths(revs: Seq<LiveRevision>) -> Seq<Seq<Seq<u8>>>
    decreases revs.len(),
{
    if revs.len() == 0 {
        Seq::empty()
    } else if revs.last().invalidated {
        live_paths(revs.drop_last())
    } else {
        live_paths(revs.drop_last()).push(path_view(revs.last().path))
    }
}

/// The paths a cleanup reaches: the live revisions' paths, then the entry's
/// canonical and requested paths.
pub open spec fn cleanup_paths(entry: Option<EntryRecord>, revs: Seq<LiveRevision>) -> Seq<Seq<Seq<u8>>> {
    match entry {
        Some(e) => live_paths(revs).push(path_view(e.path)).push(path_view(e.request_path)),
        None => live_paths(revs),
    }
}

/// Each path once, in order of first appearance.
pub open spec fn distinct(ps: Seq<Seq<Seq<u8>>>) -> Seq<Seq<Seq<u8>>>
    decreases ps.len(),
{
    if ps.len() == 0 {
        ps
    } else if ps.drop_last().contains(ps.last()) {
        distinct(ps.drop_last())
    } else {
        distinct(ps.drop_last()).push(ps.last())
    }
}

/// Whether a cleanup cancels the open job `j`: a job of the document, or,
/// while the document is open, a job of one of its paths.
pub open spec fn cleanup_hits(j: OpenRecord, document: DocumentId, open: bool, paths: Seq<Seq<Seq<u8>>>) -> bool {
    j.document == document || (open && (paths.contains(path_view(j.path)) || (j.canonical is Some
        && paths.contains(path_view(j.canonical->0)))))
}

/// The open jobs a cleanup cancels, in order.
pub open spec fn cleanup_jobs(p: Seq<OpenRecord>, document: DocumentId, open: bool, paths: Seq<Seq<Seq<u8>>>) -> Seq<
    OpenJobId,
>
    decreases p.len(),
{
    if p.len() == 0 {
        Seq::empty()
    } else if cleanup_hits(p.last(), document, open, paths) {
        cleanup_jobs(p.drop_last(), document, open, paths).push(p.last().id)
    } else {
        cleanup_jobs(p.drop_last(), document, open, paths)
    }
}

/// The unresolved opens that might alias the document's path: recorded,
/// while the document is open, so that the plan goes stale if one resolves to it.
pub open spec fn unresolved_jobs(p: Seq<OpenRecord>, open: bool, loads: Seq<OpenJobId>) -> Seq<OpenJobId>
    decreases p.len(),
{
    if p.len() == 0 {
        Seq::empty()
    } else if open && p.last().kind == OpenKind::Open && p.last().canonical is None && !loads.contains(
        p.last().id,
    ) {
        unresolved_jobs(p.drop_last(), open, loads).push(p.last().id)
    } else {
        unresolved_jobs(p.drop_last(), open, loads)
    }
}

/// The preview jobs of a document, in order.
pub open spec fn preview_jobs_of(p: Seq<PreviewRecord>, document: DocumentId) -> Seq<PreviewJobId>
    decreases p.len(),
{
    if p.len() == 0 {
        Seq::empty()
    } else if p.last().key.document == document {
        preview_jobs_of(p.drop_last(), document).push(p.last().id)
    } else {
        preview_jobs_of(p.drop_last(), document)
    }
}

/// What a cleanup of one document would reach, as the registry sees it.
#[derive(Debug)]
pub struct CleanupFacts {
    pub open_revision: Option<RevisionId>,
    pub selection: Option<SnapshotId>,
    pub live_revisions: Vec<RevisionId>,
    pub load_jobs: Vec<OpenJobId>,
    pub unresolved_load_jobs: Vec<OpenJobId>,
    pub preview_jobs: Vec<PreviewJobId>,
    pub paths: Vec<PathKey>,
}

/// What a cleanup reaches, as shown before it is confirmed: the document, its
/// open revision and selection, its live revisions, its active tasks, the
/// open jobs, the unresolved opens that might alias its paths, and its
/// preview jobs. It holds only small records, never document content.
#[derive(Debug, Clone)]
pub struct CleanupImpact {
    pub document_id: DocumentId,
    pub open_revision: Option<RevisionId>,
    pub selection: Option<SnapshotId>,
    pub live_revisions: Vec<RevisionId>,
    pub tasks: Vec<DesignTask>,
    pub load_jobs: Vec<OpenJobId>,
    pub unresolved_load_jobs: Vec<OpenJobId>,
    pub preview_jobs: Vec<PreviewJobId>,
}

/// A confirmed cleanup: only that the decision was applied, and whether an
/// earlier confirmation of the same plan had applied it already.
#[derive(Debug, Clone, Copy, PartialEq, Eq, Structural)]
pub struct CleanupReceipt {
    pub document_id: DocumentId,
    pub already_applied: bool,
}

impl CleanupFacts {
    /// The impact summary of `document` from these facts and its active
    /// `tasks`, with the paths that the cleanup covers.
    pub fn into_impact(self, document: DocumentId, tasks: Vec<DesignTask>) -> (r: (
        CleanupImpact,
        Vec<PathKey>,
    ))
        ensures
            r.0.document_id == document,
            r.0.open_revision == self.open_revision,
            r.0.selection == self.selection,
            r.0.live_revisions@ == self.live_revisions@,
            r.0.tasks@ == tasks@,
            r.0.load_jobs@ == self.load_jobs@,
            r.0.unresolved_load_jobs@ == self.unresolved_load_jobs@,
            r.0.preview_jobs@ == self.preview_jobs@,
            r.1@ == self.paths@,
    {
        let CleanupFacts {
            open_revision,
            selection,
            live_revisions,
            load_jobs,
            unresolved_load_jobs,
            preview_jobs,
            paths,
        } = self;
        (
            CleanupImpact {
                document_id: document,
                open_revision,
                selection,
                live_revisions,
                tasks,
                load_jobs,
                unresolved_load_jobs,
                preview_jobs,
            },
            paths,
        )
    }
}

/// The paths of a list of path keys.
pub open spec fn paths_view(ps: Seq<PathKey>) -> Seq<Seq<Seq<u8>>> {
    ps.map_values(|p: PathKey| path_view(p))
}

/// Whether `p` is among `ps`.
fn listed(ps: &Vec<PathKey>, p: &PathKey) -> (b: bool)
    ensures
        b == paths_view(ps@).contains(path_view(*p)),
{
    let mut i: usize = 0;
    while i < ps.len()
        invariant
            i <= ps@.len(),
            forall|j: int| 0 <= j < i ==> path_view(#[trigger] ps@[j]) != path_view(*p),
        decreases ps@.len() - i,
    {
        if same_path(&ps[i], p) {
            proof {
                assert(paths_view(ps@)[i as int] == path_view(*p));
            }
            return true;
        }
        i = i + 1;
    }
    proof {
        assert forall|j: int| 0 <= j < paths_view(ps@).len() implies paths_view(ps@)[j] != path_view(*p) by {
            assert(path_view(ps@[j]) != path_view(*p));
        }
    }
    false
}

/// A path is among the distinct paths exactly when it is among the paths.
proof fn lemma_distinct_contains(ps: Seq<Seq<Seq<u8>>>, p: Seq<Seq<u8>>)
    ensures
        distinct(ps).contains(p) == ps.contains(p),
    decreases ps.len(),
{
    if ps.len() > 0 {
        let d = ps.drop_last();
        lemma_distinct_contains(d, p);
        if ps.contains(p) && !d.contains(p) {
            assert(ps.last() == p) by {
                let i = choose|i: int| 0 <= i < ps.len() && ps[i] == p;
                if i < ps.len() - 1 {
                    assert(d[i] == p);
                }
            }
        }
        if d.contains(p) {
            let i = choose|i: int| 0 <= i < d.len() && d[i] == p;
            assert(ps[i] == p);
        }
        if distinct(ps).contains(p) && !distinct(d).contains(p) {
            assert(ps.last() == p) by {
                let dd = distinct(d);
                let i = choose|i: int| 0 <= i < distinct(ps).len() && distinct(ps)[i] == p;
                if i < dd.len() {
                    assert(dd[i] == p);
                }
            }
            assert(ps[ps.len() - 1] == p);
        }
        if distinct(d).contains(p) {
            let i = choose|i: int| 0 <= i < distinct(d).len() && distinct(d)[i] == p;
            assert(distinct(ps)[i] == p);
        }
        if ps.contains(p) && ps.last() == p && !d.contains(p) {
            assert(distinct(ps)[distinct(d).len() as int] == p);
        }
    }
}

/// Whether two cleanup views agree: the same entry revision and selection,
/// the same revisions and jobs in the same order, and the same set of paths.
pub open spec fn same_facts(a: CleanupFacts, b: CleanupFacts) -> bool {
    &&& a.open_revision == b.open_revision
    &&& a.selection == b.selection
    &&& a.live_revisions@ == b.live_revisions@
    &&& a.load_jobs@ == b.load_jobs@
    &&& a.unresolved_load_jobs@ == b.unresolved_load_jobs@
    &&& a.preview_jobs@ == b.preview_jobs@
    &&& paths_view(a.paths@).to_set() == paths_view(b.paths@).to_set()
}

/// Whether two lists of open job ids are equal.
fn same_jobs(a: &Vec<OpenJobId>, b: &Vec<OpenJobId>) -> (r: bool)
    ensures
        r == (a@ == b@),
{
    if a.len() != b.len() {
        return false;
    }
    let mut i: usize = 0;
    while i < a.len()
        invariant
            a@.len() == b@.len(),
            i <= a@.len(),
            forall|k: int| 0 <= k < i ==> a@[k] == b@[k],
        decreases a@.len() - i,
    {
        if a[i].0 != b[i].0 {
            return false;
        }
        i = i + 1;
    }
    proof {
        assert(a@ =~= b@);
    }
    true
}

/// Whether two lists of preview job ids are equal.
fn same_previews(a: &Vec<PreviewJobId>, b: &Vec<PreviewJobId>) -> (r: bool)
    ensures
        r == (a@ == b@),
{
    if a.len() != b.len() {
        return false;
    }
    let mut i: usize = 0;
    while i < a.len()
        invariant
            a@.len() == b@.len(),
            i <= a@.len(),
            forall|k: int| 0 <= k < i ==> a@[k] == b@[k],
        decreases a@.len() - i,
    {
        if a[i].0 != b[i].0 {
            return false;
        }
        i = i + 1;
    }
    proof {
        assert(a@ =~= b@);
    }
    true
}

/// Whether two lists of revision ids are equal.
fn same_revisions(a: &Vec<RevisionId>, b: &Vec<RevisionId>) -> (r: bool)
    ensures
        r == (a@ == b@),
{
    if a.len() != b.len() {
        return false;
    }
    let mut i: usize = 0;
    while i < a.len()
        invariant
            a@.len() == b@.len(),
            i <= a@.len(),
            forall|k: int| 0 <= k < i ==> a@[k] == b@[k],
        decreases a@.len() - i,
    {
        if a[i].0 != b[i].0 {
            return false;
        }
        i = i + 1;
    }
    proof {
        assert(a@ =~= b@);
    }
    true
}

/// Whether every path of `a` is among `b`.
fn paths_within(a: &Vec<PathKey>, b: &Vec<PathKey>) -> (r: bool)
    ensures
        r == (forall|i: int| 0 <= i < a@.len() ==> paths_view(b@).contains(#[trigger] path_view(a@[i]))),
{
    let mut i: usize = 0;
    while i < a.len()
        invariant
            i <= a@.len(),
            forall|k: int| 0 <= k < i ==> paths_view(b@).contains(#[trigger] path_view(a@[k])),
        decreases a@.len() - i,
    {
        if !listed(b, &a[i]) {
            return false;
        }
        i = i + 1;
    }
    true
}

/// Whether a plan's view of a cleanup still holds, as [`same_facts`] states it.
pub fn facts_agree(a: &CleanupFacts, b: &CleanupFacts) -> (r: bool)
    ensures
        r == same_facts(*a, *b),
{
    let within = paths_within(&a.paths, &b.paths) && paths_within(&b.paths, &a.paths);
    proof {
        let x = paths_view(a.paths@);
        let y = paths_view(b.paths@);
        if within {
            assert forall|p: Seq<Seq<u8>>| x.to_set().contains(p) implies y.to_set().contains(p) by {
                let i = choose|i: int| 0 <= i < x.len() && x[i] == p;
                assert(path_view(a.paths@[i]) == p);
            }
            assert forall|p: Seq<Seq<u8>>| y.to_set().contains(p) implies x.to_set().contains(p) by {
                let i = choose|i: int| 0 <= i < y.len() && y[i] == p;
                assert(path_view(b.paths@[i]) == p);
            }
            assert(x.to_set() =~= y.to_set());
        } else {
            if x.to_set() == y.to_set() {
                assert forall|i: int| 0 <= i < a.paths@.len() implies y.contains(#[trigger] path_view(a.paths@[i])) by {
                    assert(x[i] == path_view(a.paths@[i]));
                    assert(x.to_set().contains(x[i]));
                }
                assert forall|i: int| 0 <= i < b.paths@.len() implies x.contains(#[trigger] path_view(b.paths@[i])) by {
                    assert(y[i] == path_view(b.paths@[i]));
                    assert(y.to_set().contains(y[i]));
                }
            }
        }
    }
    a.open_revision == b.open_revision && a.selection == b.selection && same_revisions(
        &a.live_revisions,
        &b.live_revisions,
    ) && same_jobs(&a.load_jobs, &b.load_jobs) && same_jobs(&a.unresolved_load_jobs, &b.unresolved_load_jobs)
        && same_previews(&a.preview_jobs, &b.preview_jobs) && within
}

/// What applying a cleanup released: the entry if it was open, the dequeued
/// open and preview jobs, and the document's cached selections.
#[derive(Debug)]
pub struct Cleaned {
    pub entry: Option<EntryRecord>,
    pub jobs: Vec<OpenJobId>,
    pub previews: Vec<PreviewJobId>,
    pub selections: Vec<(SnapshotId, DocumentId)>,
}

/// Registry of documents, jobs and intents of one service.
#[derive(Debug)]
pub struct Registry {
    documents: Vec<EntryRecord>,
    active: Option<DocumentId>,
    activation: Option<OpenJobId>,
    pending: Vec<OpenRecord>,
    queue: Vec<OpenJobId>,
    previews: Vec<PreviewRecord>,
    preview_queue: Vec<PreviewJobId>,
    stopping: bool,
    next_job: u64,
    closed_paths: Vec<ClosedPath>,
    version: u64,
    last_snapshot: u64,
    selection_cache: Vec<(SnapshotId, DocumentId)>,
}

impl Registry {
    /// The published documents, in tab order.
    pub closed spec fn documents(&self) -> Seq<EntryRecord> {
        self.documents@
    }

    /// The active document.
    pub closed spec fn active(&self) -> Option<DocumentId> {
        self.active
    }

    /// The open job whose completion may still activate its document.
    pub closed spec fn activation(&self) -> Option<OpenJobId> {
        self.activation
    }

    /// Open and reload jobs not yet finished, by ascending id.
    pub closed spec fn pending(&self) -> Seq<OpenRecord> {
        self.pending@
    }

    /// Queued open and reload jobs in order of execution.
    pub closed spec fn queue(&self) -> Seq<OpenJobId> {
        self.queue@
    }

    /// Preview jobs not yet finished, by ascending id.
    pub closed spec fn previews(&self) -> Seq<PreviewRecord> {
        self.previews@
    }

    /// Queued preview jobs in order of execution.
    pub closed spec fn preview_queue(&self) -> Seq<PreviewJobId> {
        self.preview_queue@
    }

    /// Whether the service stopped admitting work.
    pub closed spec fn is_stopping(&self) -> bool {
        self.stopping
    }

    /// The last job number handed out (zero before the first).
    pub closed spec fn last_job(&self) -> u64 {
        self.next_job
    }

    /// The selection version: it advances with every change of the active
    /// document or of its committed selection.
    pub closed spec fn version(&self) -> u64 {
        self.version
    }

    /// The last snapshot number handed out, and the cached earlier
    /// selections with their documents, oldest first.
    pub closed spec fn selections(&self) -> (u64, Seq<(SnapshotId, DocumentId)>) {
        (self.last_snapshot, self.selection_cache@)
    }

    /// Closed paths and their cut-off jobs.
    pub closed spec fn closed(&self) -> Seq<(Seq<Seq<u8>>, OpenJobId)> {
        closed_view(self.closed_paths@)
    }

    /// Job ids ascend in both job lists and none was handed out yet; every
    /// queued id names a queued job.
    pub closed spec fn wf(&self) -> bool {
        &&& ascending(self.pending@)
        &&& forall|i: int| 0 <= i < self.pending@.len() ==> (#[trigger] self.pending@[i]).id.0 <= self.next_job
        &&& previews_ascending(self.previews@)
        &&& forall|i: int| 0 <= i < self.previews@.len() ==> (#[trigger] self.previews@[i]).id.0 <= self.next_job
        &&& forall|k: int| 0 <= k < self.queue@.len() ==> queued_open(self.pending@, #[trigger] self.queue@[k])
        &&& forall|k: int|
            0 <= k < self.preview_queue@.len() ==> queued_preview(self.previews@, #[trigger] self.preview_queue@[k])
        &&& queue_ascending(self.queue@)
        &&& preview_queue_ascending(self.preview_queue@)
    }

    /// An empty registry that admits work.
    pub fn new() -> (r: Registry)
        ensures
            r.documents().len() == 0,
            r.active() is None,
            r.activation() is None,
            r.pending().len() == 0,
            r.queue().len() == 0,
            r.previews().len() == 0,
            r.preview_queue().len() == 0,
            !r.is_stopping(),
            r.last_job() == 0,
            r.closed().len() == 0,
            r.version() == 0,
            r.selections().0 == 0,
            r.selections().1.len() == 0,
            r.wf(),
    {
        Registry {
            documents: Vec::new(),
            active: None,
            activation: None,
            pending: Vec::new(),
            queue: Vec::new(),
            previews: Vec::new(),
            preview_queue: Vec::new(),
            stopping: false,
            next_job: 0,
            closed_paths: Vec::new(),
            version: 0,
            last_snapshot: 0,
            selection_cache: Vec::new(),
        }
    }

    /// Refuses work once the service is stopping.
    pub fn ensure_running(&self) -> (r: Result<(), DocumentError>)
        ensures
            self.is_stopping() ==> r matches Err(DocumentError::ShuttingDown),
            !self.is_stopping() ==> r is Ok,
    {
        if self.stopping {
            Err(DocumentError::ShuttingDown)
        } else {
            Ok(())
        }
    }

    /// Hands out the next job number; open and preview jobs share the counter.
    pub fn allocate_id(&mut self) -> (r: Result<OpenJobId, DocumentError>)
        ensures
            old(self).last_job() == u64::MAX ==> (r matches Err(DocumentError::IdExhausted)
                && final(self).last_job() == old(self).last_job()),
            old(self).last_job() < u64::MAX ==> r == Ok::<OpenJobId, DocumentError>(
                OpenJobId((old(self).last_job() + 1) as u64),
            ) && final(self).last_job() == old(self).last_job() + 1,
            final(self).documents() == old(self).documents(),
            final(self).active() == old(self).active(),
            final(self).activation() == old(self).activation(),
            final(self).pending() == old(self).pending(),
            final(self).queue() == old(self).queue(),
            final(self).previews() == old(self).previews(),
            final(self).preview_queue() == old(self).preview_queue(),
            final(self).is_stopping() == old(self).is_stopping(),
            final(self).closed() == old(self).closed(),
            final(self).version() == old(self).version(),
            final(self).selections() == old(self).selections(),
    {
        match self.next_job.checked_add(1) {
            None => Err(DocumentError::IdExhausted),
            Some(n) => {
                self.next_job = n;
                Ok(OpenJobId(n))
            },
        }
    }


    /// Queues a new job; its document is the job's own number for an open.
    fn enqueue(&mut self, id: OpenJobId, document: DocumentId, kind: OpenKind, path: PathKey)
        requires
            old(self).wf(),
            id.0 == old(self).last_job(),
            forall|i: int| 0 <= i < old(self).pending().len() ==> (#[trigger] old(self).pending()[i]).id.0 < id.0,
        ensures
            final(self).wf(),
            final(self).pending() == old(self).pending().push(
                OpenRecord { id, document, kind, path, canonical: None, execution: Execution::Queued },
            ),
            final(self).queue() == old(self).queue().push(id),
            final(self).documents() == old(self).documents(),
            final(self).active() == old(self).active(),
            final(self).activation() == old(self).activation(),
            final(self).previews() == old(self).previews(),
            final(self).preview_queue() == old(self).preview_queue(),
            final(self).is_stopping() == old(self).is_stopping(),
            final(self).last_job() == old(self).last_job(),
            final(self).closed() == old(self).closed(),
            final(self).version() == old(self).version(),
            final(self).selections() == old(self).selections(),
    {
        self.pending.push(OpenRecord { id, document, kind, path, canonical: None, execution: Execution::Queued });
        self.queue.push(id);
        proof {
            let n = old(self).pending@.len() as int;
            assert(job_at(self.pending@, id, n));
            assert forall|i: int, j: int| 0 <= i < j < self.pending@.len() implies (#[trigger] self.pending@[i]).id.0
                < (#[trigger] self.pending@[j]).id.0 by {
                assert(old(self).pending@[i] == self.pending@[i]);
                assert(old(self).pending()[i].id.0 < id.0);
                if j < n {
                    assert(old(self).pending@[j] == self.pending@[j]);
                    assert(ascending(old(self).pending@));
                    assert(old(self).pending@[i].id.0 < old(self).pending@[j].id.0);
                }
            }
            assert forall|a: int, b: int| 0 <= a < b < self.queue@.len() implies (#[trigger] self.queue@[a]).0
                < (#[trigger] self.queue@[b]).0 by {
                let q = self.queue@[a];
                assert(q == old(self).queue@[a]);
                assert(queued_open(old(self).pending@, q));
                let j = choose|j: int| job_at(old(self).pending@, q, j) && old(self).pending@[j].execution is Queued;
                assert(old(self).pending()[j].id.0 < id.0);
                if b < old(self).queue@.len() {
                    assert(self.queue@[b] == old(self).queue@[b]);
                }
            }
            assert forall|k: int| 0 <= k < self.queue@.len() implies queued_open(
                self.pending@,
                #[trigger] self.queue@[k],
            ) by {
                if k < old(self).queue@.len() {
                    let q = self.queue@[k];
                    assert(queued_open(old(self).pending@, q));
                    let j = choose|j: int| job_at(old(self).pending@, q, j) && old(self).pending@[j].execution is Queued;
                    assert(job_at(self.pending@, q, j));
                } else {
                    assert(job_at(self.pending@, id, n) && self.pending@[n].execution is Queued);
                }
            }
        }
    }

    /// Admits an open of the absolute path `path`: an open document with the
    /// path is reused and activated; a pending open of the path is joined;
    /// otherwise a new job is queued unless the job slots are full. The
    /// admitted request holds the activation intent.
    pub fn open(&mut self, path: PathKey, max_pending: usize) -> (r: Result<OpenAdmission, DocumentError>)
        requires
            old(self).wf(),
        ensures
            final(self).wf(),
            if old(self).is_stopping() {
                unchanged(*final(self), *old(self)) && (r matches Err(DocumentError::ShuttingDown))
            } else if exists|i: int| first_entry(old(self).documents(), path_view(path), i) {
                forall|i: int|
                    #![trigger first_entry(old(self).documents(), path_view(path), i)]
                    first_entry(old(self).documents(), path_view(path), i) ==> if old(self).last_job()
                        == u64::MAX {
                        unchanged(*final(self), *old(self)) && (r matches Err(DocumentError::IdExhausted))
                    } else if old(self).active() != Some(old(self).documents()[i].document) && old(self).version() == u64::MAX {
                        &&& r matches Err(DocumentError::IdExhausted)
                        &&& final(self).last_job() == old(self).last_job() + 1
                        &&& final(self).version() == old(self).version()
                        &&& final(self).selections() == old(self).selections()
                        &&& final(self).active() == old(self).active()
                        &&& final(self).activation() == old(self).activation()
                        &&& final(self).documents() == old(self).documents()
                        &&& final(self).pending() == old(self).pending()
                        &&& final(self).queue() == old(self).queue()
                        &&& final(self).previews() == old(self).previews()
                        &&& final(self).preview_queue() == old(self).preview_queue()
                        &&& final(self).is_stopping() == old(self).is_stopping()
                        &&& final(self).closed() == old(self).closed()
                    } else {
                        &&& final(self).selections() == old(self).selections()
                        &&& final(self).version() == activated_version(
                            old(self).active(),
                            old(self).version(),
                            Some(old(self).documents()[i].document),
                        )
                        &&& r == Ok::<OpenAdmission, DocumentError>(
                            OpenAdmission::Reused {
                                job: OpenJobId((old(self).last_job() + 1) as u64),
                                document: old(self).documents()[i].document,
                                revision: old(self).documents()[i].revision,
                            },
                        )
                        &&& final(self).active() == Some(old(self).documents()[i].document)
                        &&& final(self).activation() is None
                        &&& final(self).last_job() == old(self).last_job() + 1
                        &&& final(self).documents() == old(self).documents()
                        &&& final(self).pending() == old(self).pending()
                        &&& final(self).queue() == old(self).queue()
                        &&& final(self).previews() == old(self).previews()
                        &&& final(self).preview_queue() == old(self).preview_queue()
                        &&& final(self).is_stopping() == old(self).is_stopping()
                        &&& final(self).closed() == old(self).closed()
                    }
            } else if exists|j: int| first_joinable(old(self).pending(), path_view(path), j) {
                forall|j: int|
                    #![trigger first_joinable(old(self).pending(), path_view(path), j)]
                    first_joinable(old(self).pending(), path_view(path), j) ==> {
                        &&& r == Ok::<OpenAdmission, DocumentError>(
                            OpenAdmission::Joined(old(self).pending()[j].id),
                        )
                        &&& final(self).activation() == Some(old(self).pending()[j].id)
                        &&& final(self).active() == old(self).active()
                        &&& final(self).version() == old(self).version()
                        &&& final(self).selections() == old(self).selections()
                        &&& final(self).last_job() == old(self).last_job()
                        &&& final(self).documents() == old(self).documents()
                        &&& final(self).pending() == old(self).pending()
                        &&& final(self).queue() == old(self).queue()
                        &&& final(self).previews() == old(self).previews()
                        &&& final(self).preview_queue() == old(self).preview_queue()
                        &&& final(self).is_stopping() == old(self).is_stopping()
                        &&& final(self).closed() == old(self).closed()
                    }
            } else if old(self).pending().len() + old(self).previews().len() >= max_pending {
                unchanged(*final(self), *old(self)) && (r matches Err(DocumentError::QueueFull { limit })
                    && limit == max_pending)
            } else if old(self).last_job() == u64::MAX {
                unchanged(*final(self), *old(self)) && (r matches Err(DocumentError::IdExhausted))
            } else {
                let id = OpenJobId((old(self).last_job() + 1) as u64);
                &&& r == Ok::<OpenAdmission, DocumentError>(OpenAdmission::Queued(id))
                &&& final(self).pending() == old(self).pending().push(
                    OpenRecord {
                        id,
                        document: DocumentId(id.0),
                        kind: OpenKind::Open,
                        path,
                        canonical: None,
                        execution: Execution::Queued,
                    },
                )
                &&& final(self).queue() == old(self).queue().push(id)
                &&& final(self).activation() == Some(id)
                &&& final(self).last_job() == old(self).last_job() + 1
                &&& final(self).active() == old(self).active()
                &&& final(self).version() == old(self).version()
                &&& final(self).selections() == old(self).selections()
                &&& final(self).documents() == old(self).documents()
                &&& final(self).previews() == old(self).previews()
                &&& final(self).preview_queue() == old(self).preview_queue()
                &&& final(self).is_stopping() == old(self).is_stopping()
                &&& final(self).closed() == old(self).closed()
            },
    {
        if self.stopping {
            return Err(DocumentError::ShuttingDown);
        }
        match find_entry_path(&self.documents, &path) {
            Some(i) => {
                proof {
                    assert forall|k: int| first_entry(old(self).documents(), path_view(path), k) implies k
                        == i by {
                        if k < i {
                            assert(!entry_has_path(old(self).documents@[k], path_view(path)));
                        } else if i < k {
                            assert(!entry_has_path(old(self).documents@[i as int], path_view(path)));
                        }
                    }
                }
                let job = match self.allocate_id() {
                    Ok(j) => j,
                    Err(e) => {
                        return Err(e);
                    },
                };
                let document = self.documents[i].document;
                let revision = self.documents[i].revision;
                match self.set_active(Some(document)) {
                    Ok(()) => {},
                    Err(e) => {
                        return Err(e);
                    },
                }
                self.activation = None;
                return Ok(OpenAdmission::Reused { job, document, revision });
            },
            None => {},
        }
        match find_joinable(&self.pending, &path) {
            Some(j) => {
                proof {
                    assert forall|k: int| first_joinable(old(self).pending(), path_view(path), k) implies k
                        == j by {
                        if k < j {
                            assert(!joinable(old(self).pending@[k], path_view(path)));
                        } else if j < k {
                            assert(!joinable(old(self).pending@[j as int], path_view(path)));
                        }
                    }
                }
                let id = self.pending[j].id;
                self.activation = Some(id);
                return Ok(OpenAdmission::Joined(id));
            },
            None => {},
        }
        if self.pending.len() >= max_pending || self.previews.len() >= max_pending - self.pending.len() {
            return Err(DocumentError::QueueFull { limit: max_pending });
        }
        let id = match self.allocate_id() {
            Ok(j) => j,
            Err(e) => {
                return Err(e);
            },
        };
        self.enqueue(id, DocumentId(id.0), OpenKind::Open, path);
        self.activation = Some(id);
        Ok(OpenAdmission::Queued(id))
    }


    /// Makes `document` the active one; a change advances the selection
    /// version, activating the active document again does not.
    fn set_active(&mut self, document: Option<DocumentId>) -> (r: Result<(), DocumentError>)
        ensures
            final(self).documents == old(self).documents,
            final(self).activation == old(self).activation,
            final(self).pending == old(self).pending,
            final(self).queue == old(self).queue,
            final(self).previews == old(self).previews,
            final(self).preview_queue == old(self).preview_queue,
            final(self).stopping == old(self).stopping,
            final(self).next_job == old(self).next_job,
            final(self).closed_paths == old(self).closed_paths,
            final(self).last_snapshot == old(self).last_snapshot,
            final(self).selection_cache == old(self).selection_cache,
            if old(self).active != document && old(self).version == u64::MAX {
                r matches Err(DocumentError::IdExhausted) && final(self).active == old(self).active
                    && final(self).version == old(self).version
            } else {
                r is Ok && final(self).active == document && final(self).version == activated_version(
                    old(self).active,
                    old(self).version,
                    document,
                )
            },
    {
        if self.active != document {
            if self.version == u64::MAX {
                return Err(DocumentError::IdExhausted);
            }
            self.version = self.version + 1;
            self.active = document;
        }
        Ok(())
    }


    /// Cancels every pending job that `rule` reaches: queued ones leave the
    /// queue and the registry, running ones are marked. Gives back the
    /// dequeued ids, which finish as cancelled.
    fn cancel_where(&mut self, rule: &CancelRule) -> (removed: Vec<OpenJobId>)
        requires
            old(self).wf(),
        ensures
            final(self).wf(),
            removed@ == dequeued_ids(old(self).pending(), *rule),
            final(self).pending() == after_cancel(old(self).pending(), *rule),
            final(self).queue() == without_ids(old(self).queue(), removed@),
            final(self).closed() == kept_closed(old(self).closed(), final(self).pending()),
            final(self).documents() == old(self).documents(),
            final(self).active() == old(self).active(),
            final(self).activation() == old(self).activation(),
            final(self).previews() == old(self).previews(),
            final(self).preview_queue() == old(self).preview_queue(),
            final(self).is_stopping() == old(self).is_stopping(),
            final(self).last_job() == old(self).last_job(),
            final(self).version() == old(self).version(),
            final(self).selections() == old(self).selections(),
    {
        let ghost original = self.pending@;
        let mut rest: Vec<OpenRecord> = Vec::new();
        std::mem::swap(&mut self.pending, &mut rest);
        let mut removed: Vec<OpenJobId> = Vec::new();
        let ghost mut k: int = 0;
        while rest.len() > 0
            invariant
                0 <= k <= original.len(),
                rest@ == original.skip(k),
                self.pending@ == after_cancel(original.take(k), *rule),
                removed@ == dequeued_ids(original.take(k), *rule),
                self.documents == old(self).documents,
                self.active == old(self).active,
                self.activation == old(self).activation,
                self.queue == old(self).queue,
                self.previews == old(self).previews,
                self.preview_queue == old(self).preview_queue,
                self.stopping == old(self).stopping,
                self.next_job == old(self).next_job,
                self.closed_paths == old(self).closed_paths,
                self.version == old(self).version,
                self.last_snapshot == old(self).last_snapshot,
                self.selection_cache == old(self).selection_cache,
            decreases rest@.len(),
        {
            let job = rest.remove(0);
            proof {
                assert(job == original[k]);
                assert(original.take(k + 1).drop_last() =~= original.take(k));
                assert(original.take(k + 1).last() == original[k]);
                assert(rest@ =~= original.skip(k + 1));
            }
            if rule_hits(rule, &job) {
                match job.execution {
                    Execution::Queued => {
                        removed.push(job.id);
                    },
                    Execution::Running(at) => {
                        let mut marked = job;
                        marked.execution = Execution::Cancelling(at);
                        self.pending.push(marked);
                    },
                    _ => {
                        self.pending.push(job);
                    },
                }
            } else {
                self.pending.push(job);
            }
            proof {
                k = k + 1;
            }
        }
        proof {
            assert(original.take(k) =~= original);
            lemma_after_cancel_ascending(original, *rule);
            lemma_after_cancel_ids(original, *rule);
        }
        let queue = queue_without_all(&self.queue, &removed);
        proof {
            lemma_without_ids_ascending(self.queue@, removed@);
        }
        self.queue = queue;
        self.prune_closed_paths();
        proof {
            assert forall|i: int| 0 <= i < self.pending@.len() implies (#[trigger] self.pending@[i]).id.0
                <= self.next_job by {
                let m = choose|m: int| 0 <= m < original.len() && self.pending@[i].id == original[m].id;
            }
            assert forall|k2: int| 0 <= k2 < self.queue@.len() implies queued_open(
                self.pending@,
                #[trigger] self.queue@[k2],
            ) by {
                let q = self.queue@[k2];
                lemma_without_ids(old(self).queue@, removed@, k2);
                let m = choose|m: int| 0 <= m < old(self).queue@.len() && old(self).queue@[m] == q;
                assert(queued_open(original, old(self).queue@[m]));
                let j = choose|j: int| job_at(original, q, j) && original[j].execution is Queued;
                lemma_after_cancel_queued(original, *rule, j);
                let t = choose|t: int| 0 <= t < after_cancel(original, *rule).len() && #[trigger] after_cancel(original, *rule)[t] == original[j];
                assert(job_at(self.pending@, q, t));
            }
        }
        removed
    }

    /// Makes a published document active, and drops the activation intent
    /// of any earlier open.
    pub fn activate(&mut self, document: DocumentId) -> (r: Result<(), DocumentError>)
        requires
            old(self).wf(),
        ensures
            final(self).wf(),
            if old(self).is_stopping() {
                unchanged(*final(self), *old(self)) && (r matches Err(DocumentError::ShuttingDown))
            } else if !has_document(old(self).documents(), document) {
                unchanged(*final(self), *old(self)) && r == Err::<(), DocumentError>(
                    DocumentError::NotFound(document),
                )
            } else if old(self).active() != Some(document) && old(self).version() == u64::MAX {
                unchanged(*final(self), *old(self)) && (r matches Err(DocumentError::IdExhausted))
            } else {
                &&& r is Ok
                &&& final(self).active() == Some(document)
                &&& final(self).activation() is None
                &&& final(self).selections() == old(self).selections()
                &&& final(self).version() == activated_version(
                    old(self).active(),
                    old(self).version(),
                    Some(document),
                )
                &&& final(self).documents() == old(self).documents()
                &&& final(self).pending() == old(self).pending()
                &&& final(self).queue() == old(self).queue()
                &&& final(self).previews() == old(self).previews()
                &&& final(self).preview_queue() == old(self).preview_queue()
                &&& final(self).is_stopping() == old(self).is_stopping()
                &&& final(self).last_job() == old(self).last_job()
                &&& final(self).closed() == old(self).closed()
            },
    {
        if self.stopping {
            return Err(DocumentError::ShuttingDown);
        }
        if find_document(&self.documents, document).is_none() {
            return Err(DocumentError::NotFound(document));
        }
        match self.set_active(Some(document)) {
            Ok(()) => {},
            Err(e) => {
                return Err(e);
            },
        }
        self.activation = None;
        Ok(())
    }


    /// Cancels the preview jobs of `document`, or all of them for `None`: a
    /// queued job leaves the queue and starts finishing at `now`, a running
    /// one is marked. Gives back the dequeued ids; each is released with
    /// [`Registry::release_preview`] once its data is dropped.
    pub fn invalidate_previews(&mut self, document: Option<DocumentId>, now: std::time::Instant) -> (removed: Vec<
        PreviewJobId,
    >)
        requires
            old(self).wf(),
        ensures
            final(self).wf(),
            removed@ == preview_dequeued(old(self).previews(), document),
            final(self).previews() == after_preview_cancel(old(self).previews(), document, now),
            final(self).preview_queue() == without_previews(old(self).preview_queue(), removed@),
            final(self).documents() == old(self).documents(),
            final(self).active() == old(self).active(),
            final(self).activation() == old(self).activation(),
            final(self).pending() == old(self).pending(),
            final(self).queue() == old(self).queue(),
            final(self).is_stopping() == old(self).is_stopping(),
            final(self).last_job() == old(self).last_job(),
            final(self).closed() == old(self).closed(),
            final(self).version() == old(self).version(),
            final(self).selections() == old(self).selections(),
    {
        let ghost original = self.previews@;
        let mut removed: Vec<PreviewJobId> = Vec::new();
        let mut i: usize = 0;
        while i < self.previews.len()
            invariant
                i <= original.len(),
                self.previews@.len() == original.len(),
                forall|j: int| 0 <= j < i ==> self.previews@[j] == after_preview_cancel(original, document, now)[j],
                forall|j: int| i <= j < original.len() ==> self.previews@[j] == original[j],
                removed@ == preview_dequeued(original.take(i as int), document),
                self.documents == old(self).documents,
                self.active == old(self).active,
                self.activation == old(self).activation,
                self.pending == old(self).pending,
                self.queue == old(self).queue,
                self.preview_queue == old(self).preview_queue,
                self.stopping == old(self).stopping,
                self.next_job == old(self).next_job,
                self.closed_paths == old(self).closed_paths,
                self.version == old(self).version,
                self.last_snapshot == old(self).last_snapshot,
                self.selection_cache == old(self).selection_cache,
            decreases original.len() - i,
        {
            let r = self.previews[i];
            proof {
                assert(original.take(i + 1).drop_last() =~= original.take(i as int));
                assert(original.take(i + 1).last() == original[i as int]);
            }
            let hit = match document {
                None => true,
                Some(d) => r.key.document.0 == d.0,
            };
            if hit {
                match r.execution {
                    Execution::Queued => {
                        self.previews.set(i, PreviewRecord { execution: Execution::Finishing(now), ..r });
                        removed.push(r.id);
                    },
                    Execution::Running(at) => {
                        self.previews.set(i, PreviewRecord { execution: Execution::Cancelling(at), ..r });
                    },
                    _ => {},
                }
            }
            i = i + 1;
        }
        proof {
            assert(self.previews@ =~= after_preview_cancel(original, document, now));
            assert(original.take(i as int) =~= original);
        }
        let queue = previews_without(&self.preview_queue, &removed);
        proof {
            lemma_without_previews_ascending(self.preview_queue@, removed@);
        }
        self.preview_queue = queue;
        proof {
            assert forall|k: int| 0 <= k < self.preview_queue@.len() implies queued_preview(
                self.previews@,
                #[trigger] self.preview_queue@[k],
            ) by {
                let q = self.preview_queue@[k];
                lemma_without_previews(old(self).preview_queue@, removed@, k);
                let m = choose|m: int| 0 <= m < old(self).preview_queue@.len() && old(self).preview_queue@[m] == q;
                assert(queued_preview(original, old(self).preview_queue@[m]));
                let j = choose|j: int| preview_at(original, q, j) && original[j].execution is Queued;
                if preview_hits(document, original[j]) {
                    lemma_preview_dequeued(original, document, j);
                }
                assert(preview_at(self.previews@, q, j));
            }
        }
        removed
    }

    /// Drops the record of a finished preview job.
    pub fn release_preview(&mut self, id: PreviewJobId)
        requires
            old(self).wf(),
        ensures
            final(self).wf(),
            forall|i: int|
                #![trigger preview_at(old(self).previews(), id, i)]
                preview_at(old(self).previews(), id, i) && !(old(self).previews()[i].execution is Queued)
                    ==> final(self).previews() == old(self).previews().remove(i),
            (forall|i: int| preview_at(old(self).previews(), id, i) ==> old(self).previews()[i].execution is Queued)
                ==> final(self).previews() == old(self).previews(),
            final(self).preview_queue() == old(self).preview_queue(),
            final(self).documents() == old(self).documents(),
            final(self).active() == old(self).active(),
            final(self).activation() == old(self).activation(),
            final(self).pending() == old(self).pending(),
            final(self).queue() == old(self).queue(),
            final(self).is_stopping() == old(self).is_stopping(),
            final(self).last_job() == old(self).last_job(),
            final(self).closed() == old(self).closed(),
            final(self).version() == old(self).version(),
            final(self).selections() == old(self).selections(),
    {
        let mut i: usize = 0;
        while i < self.previews.len()
            invariant
                i <= self.previews@.len(),
                old(self).wf(),
                self.previews == old(self).previews,
                self.documents == old(self).documents,
                self.active == old(self).active,
                self.activation == old(self).activation,
                self.pending == old(self).pending,
                self.queue == old(self).queue,
                self.preview_queue == old(self).preview_queue,
                self.stopping == old(self).stopping,
                self.next_job == old(self).next_job,
                self.closed_paths == old(self).closed_paths,
                self.version == old(self).version,
                self.last_snapshot == old(self).last_snapshot,
                self.selection_cache == old(self).selection_cache,
                forall|j: int| 0 <= j < i ==> (#[trigger] self.previews@[j]).id != id,
            decreases self.previews@.len() - i,
        {
            if self.previews[i].id.0 == id.0 {
                let queued = match self.previews[i].execution {
                    Execution::Queued => true,
                    _ => false,
                };
                proof {
                    assert forall|k: int| preview_at(old(self).previews(), id, k) implies k == i by {
                        if k < i {
                        } else if i < k {
                            assert(self.previews@[i as int].id.0 < self.previews@[k].id.0);
                        }
                    }
                }
                if queued {
                    return;
                }
                let ghost before = self.previews@;
                self.previews.remove(i);
                proof {
                    assert(preview_at(old(self).previews(), id, i as int));
                    assert forall|a: int, b: int| 0 <= a < b < self.previews@.len() implies (#[trigger] self.previews@[a]).id.0
                        < (#[trigger] self.previews@[b]).id.0 by {
                        let a0 = if a < i { a } else { a + 1 };
                        let b0 = if b < i { b } else { b + 1 };
                        assert(self.previews@[a] == before[a0]);
                        assert(self.previews@[b] == before[b0]);
                    }
                    assert forall|k: int| 0 <= k < self.preview_queue@.len() implies queued_preview(
                        self.previews@,
                        #[trigger] self.preview_queue@[k],
                    ) by {
                        let q = self.preview_queue@[k];
                        assert(queued_preview(before, q));
                        let j = choose|j: int| preview_at(before, q, j) && before[j].execution is Queued;
                        assert(j != i);
                        if j < i {
                            assert(preview_at(self.previews@, q, j));
                        } else {
                            assert(preview_at(self.previews@, q, j - 1));
                        }
                    }
                }
                return;
            }
            i = i + 1;
        }
    }


    /// Admits a preview of the current revision of `document`: a pending
    /// preview of that revision is joined, a cached image answers at once,
    /// and otherwise a new job is queued unless the job slots are full.
    pub fn preview(&mut self, document: DocumentId, cache: &mut PreviewCache, max_pending: usize) -> (r: Result<
        PreviewAdmission,
        DocumentError,
    >)
        requires
            old(self).wf(),
            old(cache).wf(),
        ensures
            final(self).wf(),
            final(cache).wf(),
            final(cache).bytes() == old(cache).bytes(),
            if old(self).is_stopping() {
                unchanged(*final(self), *old(self)) && final(cache)@ == old(cache)@ && final(cache).counters()
                    == old(cache).counters() && (r matches Err(DocumentError::ShuttingDown))
            } else if !has_document(old(self).documents(), document) {
                unchanged(*final(self), *old(self)) && final(cache)@ == old(cache)@ && final(cache).counters()
                    == old(cache).counters() && r == Err::<PreviewAdmission, DocumentError>(
                    DocumentError::NotFound(document),
                )
            } else {
                forall|i: int|
                    #![trigger old(self).documents()[i]]
                    0 <= i < old(self).documents().len() && old(self).documents()[i].document == document
                        && (forall|j: int| 0 <= j < i ==> (#[trigger] old(self).documents()[j]).document != document)
                        ==> {
                        let key = Key {
                            document,
                            revision: old(self).documents()[i].revision,
                            kind: PreviewKind::SavedCompositePng,
                        };
                        if exists|j: int| first_preview_for(old(self).previews(), key, j) {
                            &&& unchanged(*final(self), *old(self))
                            &&& final(cache)@ == old(cache)@
                            &&& final(cache).counters().1 == if old(cache).counters().1 == u64::MAX {
                                u64::MAX
                            } else {
                                (old(cache).counters().1 + 1) as u64
                            }
                            &&& forall|j: int|
                                #![trigger first_preview_for(old(self).previews(), key, j)]
                                first_preview_for(old(self).previews(), key, j) ==> (r matches Ok(
                                    PreviewAdmission::Joined(id),
                                ) && id == old(self).previews()[j].id)
                        } else if old(self).last_job() == u64::MAX {
                            unchanged(*final(self), *old(self)) && final(cache)@ == old(cache)@
                                && final(cache).counters() == old(cache).counters() && (r matches Err(
                                DocumentError::IdExhausted,
                            ))
                        } else {
                            let id = PreviewJobId((old(self).last_job() + 1) as u64);
                            &&& final(self).last_job() == old(self).last_job() + 1
                            &&& final(self).documents() == old(self).documents()
                            &&& final(self).active() == old(self).active()
                            &&& final(self).activation() == old(self).activation()
                            &&& final(self).pending() == old(self).pending()
                            &&& final(self).queue() == old(self).queue()
                            &&& final(self).is_stopping() == old(self).is_stopping()
                            &&& final(self).closed() == old(self).closed()
                            &&& final(self).version() == old(self).version()
                            &&& final(self).selections() == old(self).selections()
                            &&& if exists|c: int| first_cached(old(cache)@, key, c) {
                                &&& final(self).previews() == old(self).previews()
                                &&& final(self).preview_queue() == old(self).preview_queue()
                                &&& forall|c: int|
                                    #![trigger first_cached(old(cache)@, key, c)]
                                    first_cached(old(cache)@, key, c) ==> (r matches Ok(
                                        PreviewAdmission::Hit(j, image),
                                    ) && j == id && image == old(cache)@[c] && final(cache)@ == old(cache)@.remove(c).push(image))
                            } else {
                                &&& final(cache)@ == old(cache)@
                                &&& final(cache).counters() == old(cache).counters()
                                &&& if old(self).pending().len() + old(self).previews().len() >= max_pending {
                                    &&& final(self).previews() == old(self).previews()
                                    &&& final(self).preview_queue() == old(self).preview_queue()
                                    &&& r matches Err(DocumentError::QueueFull { limit })
                                    &&& limit == max_pending
                                } else {
                                    &&& r matches Ok(PreviewAdmission::Queued(j))
                                    &&& j == id
                                    &&& final(self).previews() == old(self).previews().push(
                                        PreviewRecord { id, key, execution: Execution::Queued },
                                    )
                                    &&& final(self).preview_queue() == old(self).preview_queue().push(id)
                                }
                            }
                        }
                    }
            },
    {
        if self.stopping {
            return Err(DocumentError::ShuttingDown);
        }
        let i = match find_document(&self.documents, document) {
            None => {
                return Err(DocumentError::NotFound(document));
            },
            Some(i) => i,
        };
        let key = Key {
            document,
            revision: self.documents[i].revision,
            kind: PreviewKind::SavedCompositePng,
        };
        proof {
            assert forall|k: int|
                0 <= k < old(self).documents().len() && old(self).documents()[k].document == document && (
                forall|j: int| 0 <= j < k ==> (#[trigger] old(self).documents()[j]).document != document) implies k
                == i by {
                if k < i {
                } else if i < k {
                    assert(old(self).documents()[i as int].document == document);
                }
            }
        }
        match find_preview_for(&self.previews, key) {
            Some(j) => {
                proof {
                    assert forall|m: int| first_preview_for(old(self).previews(), key, m) implies m == j by {
                        if m < j {
                        } else if j < m {
                            assert(!(old(self).previews()[j as int].key == key && accepts(old(self).previews()[j as int].execution)) || true);
                        }
                    }
                }
                cache.count_coalesced();
                return Ok(PreviewAdmission::Joined(self.previews[j].id));
            },
            None => {},
        }
        let id = match self.allocate_id() {
            Ok(n) => PreviewJobId(n.0),
            Err(e) => {
                return Err(e);
            },
        };
        let ghost c0 = cache@;
        match cache.cached(key) {
            Some(image) => {
                proof {
                    let w = choose|w: int|
                        {
                            &&& 0 <= w < c0.len()
                            &&& #[trigger] c0[w] == image
                            &&& image.0.key() == key
                            &&& forall|j: int| 0 <= j < w ==> #[trigger] c0[j].0.key() != key
                            &&& cache@ == c0.remove(w).push(image)
                        };
                    assert(first_cached(c0, key, w));
                    assert forall|c: int| first_cached(c0, key, c) implies c == w by {
                        if c < w {
                            assert(c0[c].0.key() != key);
                        } else if w < c {
                            assert(c0[w].0.key() == key);
                        }
                    }
                }
                return Ok(PreviewAdmission::Hit(id, image));
            },
            None => {},
        }
        if self.pending.len() >= max_pending || self.previews.len() >= max_pending - self.pending.len() {
            return Err(DocumentError::QueueFull { limit: max_pending });
        }
        let ghost before = *self;
        self.previews.push(PreviewRecord { id, key, execution: Execution::Queued });
        self.preview_queue.push(id);
        proof {
            let n = before.previews@.len() as int;
            assert(preview_at(self.previews@, id, n));
            assert forall|a: int, b: int| 0 <= a < b < self.previews@.len() implies (#[trigger] self.previews@[a]).id.0
                < (#[trigger] self.previews@[b]).id.0 by {
                assert(self.previews@[a] == before.previews@[a]);
                if b < n {
                    assert(self.previews@[b] == before.previews@[b]);
                }
            }
            assert forall|a: int, b: int| 0 <= a < b < self.preview_queue@.len() implies (#[trigger] self.preview_queue@[a]).0
                < (#[trigger] self.preview_queue@[b]).0 by {
                let q = self.preview_queue@[a];
                assert(q == before.preview_queue@[a]);
                assert(queued_preview(before.previews@, q));
                if b < before.preview_queue@.len() {
                    assert(self.preview_queue@[b] == before.preview_queue@[b]);
                }
            }
            assert forall|k: int| 0 <= k < self.preview_queue@.len() implies queued_preview(
                self.previews@,
                #[trigger] self.preview_queue@[k],
            ) by {
                if k < before.preview_queue@.len() {
                    let q = self.preview_queue@[k];
                    assert(queued_preview(before.previews@, q));
                    let j = choose|j: int| preview_at(before.previews@, q, j) && before.previews@[j].execution is Queued;
                    assert(preview_at(self.previews@, q, j));
                } else {
                    assert(preview_at(self.previews@, id, n) && self.previews@[n].execution is Queued);
                }
            }
        }
        Ok(PreviewAdmission::Queued(id))
    }

    /// Takes the next job for the worker: the earlier of the two queue heads
    /// by job number, marked running since `now`.
    pub fn next_work(&mut self, now: std::time::Instant) -> (next: Next)
        requires
            old(self).wf(),
        ensures
            final(self).wf(),
            final(self).documents() == old(self).documents(),
            final(self).active() == old(self).active(),
            final(self).activation() == old(self).activation(),
            final(self).is_stopping() == old(self).is_stopping(),
            final(self).last_job() == old(self).last_job(),
            final(self).closed() == old(self).closed(),
            final(self).version() == old(self).version(),
            final(self).selections() == old(self).selections(),
            if old(self).is_stopping() {
                next is Stop && unchanged(*final(self), *old(self))
            } else if old(self).queue().len() == 0 && old(self).preview_queue().len() == 0 {
                next is Wait && unchanged(*final(self), *old(self))
            } else if old(self).preview_queue().len() > 0 && (old(self).queue().len() == 0 || old(self).preview_queue()[0].0 < old(self).queue()[0].0) {
                &&& final(self).preview_queue() == old(self).preview_queue().drop_first()
                &&& final(self).queue() == old(self).queue()
                &&& final(self).pending() == old(self).pending()
                &&& forall|j: int|
                    #![trigger preview_at(old(self).previews(), old(self).preview_queue()[0], j)]
                    preview_at(old(self).previews(), old(self).preview_queue()[0], j) ==> {
                        &&& next matches Next::Preview { id, key }
                        &&& id == old(self).preview_queue()[0]
                        &&& key == old(self).previews()[j].key
                        &&& final(self).previews() == old(self).previews().update(
                            j,
                            PreviewRecord { execution: Execution::Running(now), ..old(self).previews()[j] },
                        )
                    }
            } else {
                &&& final(self).queue() == old(self).queue().drop_first()
                &&& final(self).preview_queue() == old(self).preview_queue()
                &&& final(self).previews() == old(self).previews()
                &&& forall|j: int|
                    #![trigger job_at(old(self).pending(), old(self).queue()[0], j)]
                    job_at(old(self).pending(), old(self).queue()[0], j) ==> {
                        &&& next matches Next::Open { id, document, kind, path }
                        &&& id == old(self).queue()[0]
                        &&& document == old(self).pending()[j].document
                        &&& kind == old(self).pending()[j].kind
                        &&& path_view(path) == path_view(old(self).pending()[j].path)
                        &&& final(self).pending() == old(self).pending().update(
                            j,
                            OpenRecord { execution: Execution::Running(now), ..old(self).pending()[j] },
                        )
                    }
            },
    {
        if self.stopping {
            return Next::Stop;
        }
        if self.queue.len() == 0 && self.preview_queue.len() == 0 {
            return Next::Wait;
        }
        let ghost before = *self;
        if self.preview_queue.len() > 0 && (self.queue.len() == 0 || self.preview_queue[0].0 < self.queue[0].0) {
            let id = self.preview_queue.remove(0);
            proof {
                assert(queued_preview(before.previews@, id));
            }
            let j = match find_preview(&self.previews, id) {
                Some(j) => j,
                None => {
                    proof {
                        let m = choose|m: int| preview_at(before.previews@, id, m) && before.previews@[m].execution is Queued;
                        assert(self.previews@[m].id == id);
                    }
                    return Next::Wait;
                },
            };
            let record = self.previews[j];
            self.previews.set(j, PreviewRecord { execution: Execution::Running(now), ..record });
            proof {
                assert forall|m: int| preview_at(before.previews@, id, m) implies m == j by {
                    if m < j {
                        assert(before.previews@[m].id.0 < before.previews@[j as int].id.0);
                    } else if j < m {
                        assert(before.previews@[j as int].id.0 < before.previews@[m].id.0);
                    }
                }
                assert forall|a: int, b: int| 0 <= a < b < self.previews@.len() implies (#[trigger] self.previews@[a]).id.0
                    < (#[trigger] self.previews@[b]).id.0 by {
                    assert(self.previews@[a].id == before.previews@[a].id);
                    assert(self.previews@[b].id == before.previews@[b].id);
                }
                assert forall|i: int| 0 <= i < self.previews@.len() implies (#[trigger] self.previews@[i]).id.0 <= self.next_job by {
                    assert(self.previews@[i].id == before.previews@[i].id);
                }
                assert forall|a: int, b: int| 0 <= a < b < self.preview_queue@.len() implies (#[trigger] self.preview_queue@[a]).0
                    < (#[trigger] self.preview_queue@[b]).0 by {
                    assert(self.preview_queue@[a] == before.preview_queue@[a + 1]);
                    assert(self.preview_queue@[b] == before.preview_queue@[b + 1]);
                }
                assert forall|k: int| 0 <= k < self.preview_queue@.len() implies queued_preview(
                    self.previews@,
                    #[trigger] self.preview_queue@[k],
                ) by {
                    let q = self.preview_queue@[k];
                    assert(q == before.preview_queue@[k + 1]);
                    assert(before.preview_queue@[0].0 < q.0);
                    assert(queued_preview(before.previews@, q));
                    let m = choose|m: int| preview_at(before.previews@, q, m) && before.previews@[m].execution is Queued;
                    assert(m != j);
                    assert(preview_at(self.previews@, q, m));
                }
            }
            return Next::Preview { id, key: record.key };
        }
        let id = self.queue.remove(0);
        proof {
            assert(queued_open(before.pending@, id));
        }
        let j = match find_open(&self.pending, id) {
            Some(j) => j,
            None => {
                proof {
                    let m = choose|m: int| job_at(before.pending@, id, m) && before.pending@[m].execution is Queued;
                }
                return Next::Wait;
            },
        };
        let mut job = self.pending.remove(j);
        let document = job.document;
        let kind = job.kind;
        let path = copy_path(&job.path);
        job.execution = Execution::Running(now);
        self.pending.insert(j, job);
        proof {
            assert forall|m: int| job_at(before.pending@, id, m) implies m == j by {
                lemma_unique(before.pending@, id, j as int, m);
            }
            assert(self.pending@ =~= before.pending@.update(
                j as int,
                OpenRecord { execution: Execution::Running(now), ..before.pending@[j as int] },
            ));
            assert forall|a: int, b: int| 0 <= a < b < self.pending@.len() implies (#[trigger] self.pending@[a]).id.0
                < (#[trigger] self.pending@[b]).id.0 by {
                assert(self.pending@[a].id == before.pending@[a].id);
                assert(self.pending@[b].id == before.pending@[b].id);
            }
            assert forall|i: int| 0 <= i < self.pending@.len() implies (#[trigger] self.pending@[i]).id.0 <= self.next_job by {
                assert(self.pending@[i].id == before.pending@[i].id);
            }
            assert forall|a: int, b: int| 0 <= a < b < self.queue@.len() implies (#[trigger] self.queue@[a]).0
                < (#[trigger] self.queue@[b]).0 by {
                assert(self.queue@[a] == before.queue@[a + 1]);
                assert(self.queue@[b] == before.queue@[b + 1]);
            }
            assert forall|k: int| 0 <= k < self.queue@.len() implies queued_open(
                self.pending@,
                #[trigger] self.queue@[k],
            ) by {
                let q = self.queue@[k];
                assert(q == before.queue@[k + 1]);
                assert(before.queue@[0].0 < q.0);
                assert(queued_open(before.pending@, q));
                let m = choose|m: int| job_at(before.pending@, q, m) && before.pending@[m].execution is Queued;
                assert(m != j);
                assert(job_at(self.pending@, q, m));
            }
        }
        Next::Open { id, document, kind, path }
    }


    /// The worker's locked check after resolving the canonical path of job
    /// `id`: a path closed since the job was admitted, or a cancel, stops it;
    /// otherwise the path is recorded, and an open of a path already open
    /// reuses that document.
    pub fn resolve(&mut self, id: OpenJobId, canonical: PathKey) -> (r: Resolution)
        requires
            old(self).wf(),
            has_job(old(self).pending(), id),
        ensures
            final(self).wf(),
            final(self).documents() == old(self).documents(),
            final(self).active() == old(self).active(),
            final(self).activation() == old(self).activation(),
            final(self).queue() == old(self).queue(),
            final(self).previews() == old(self).previews(),
            final(self).preview_queue() == old(self).preview_queue(),
            final(self).is_stopping() == old(self).is_stopping(),
            final(self).last_job() == old(self).last_job(),
            final(self).closed() == old(self).closed(),
            final(self).version() == old(self).version(),
            final(self).selections() == old(self).selections(),
            if closed_for(old(self).closed(), path_view(canonical), id) {
                r is Cancelled && final(self).pending() == old(self).pending()
            } else {
                forall|j: int|
                    #![trigger job_at(old(self).pending(), id, j)]
                    job_at(old(self).pending(), id, j) ==> if old(self).pending()[j].execution is Cancelling {
                        r is Cancelled && final(self).pending() == old(self).pending()
                    } else {
                        &&& final(self).pending() == old(self).pending().update(
                            j,
                            OpenRecord { canonical: Some(canonical), ..old(self).pending()[j] },
                        )
                        &&& if old(self).pending()[j].kind == OpenKind::Open && exists|i: int|
                            first_canonical(old(self).documents(), path_view(canonical), i) {
                            forall|i: int|
                                #![trigger first_canonical(old(self).documents(), path_view(canonical), i)]
                                first_canonical(old(self).documents(), path_view(canonical), i) ==> r
                                    == (Resolution::Reused {
                                    document: old(self).documents()[i].document,
                                    revision: old(self).documents()[i].revision,
                                })
                        } else {
                            r is Load
                        }
                    }
            },
    {
        if closed_match(&self.closed_paths, &canonical, id) {
            return Resolution::Cancelled;
        }
        let j = match find_open(&self.pending, id) {
            Some(j) => j,
            None => {
                return Resolution::Cancelled;
            },
        };
        proof {
            assert forall|m: int| job_at(old(self).pending(), id, m) implies m == j by {
                lemma_unique(old(self).pending@, id, j as int, m);
            }
        }
        let cancelling = match self.pending[j].execution {
            Execution::Cancelling(_) => true,
            _ => false,
        };
        if cancelling {
            return Resolution::Cancelled;
        }
        let open = match self.pending[j].kind {
            OpenKind::Open => true,
            OpenKind::Reload => false,
        };
        let reuse = if open {
            match find_canonical(&self.documents, &canonical) {
                Some(i) => {
                    proof {
                        assert forall|k: int| first_canonical(old(self).documents(), path_view(canonical), k) implies k
                            == i by {
                            if k < i {
                            } else if i < k {
                                assert(path_view(old(self).documents@[i as int].path) == path_view(canonical));
                            }
                        }
                    }
                    Some((self.documents[i].document, self.documents[i].revision))
                },
                None => None,
            }
        } else {
            None
        };
        let ghost before = self.pending@;
        let mut job = self.pending.remove(j);
        job.canonical = Some(canonical);
        self.pending.insert(j, job);
        proof {
            assert(self.pending@ =~= before.update(j as int, OpenRecord { canonical: self.pending@[j as int].canonical, ..before[j as int] }));
            assert forall|a: int, b: int| 0 <= a < b < self.pending@.len() implies (#[trigger] self.pending@[a]).id.0
                < (#[trigger] self.pending@[b]).id.0 by {
                assert(self.pending@[a].id == before[a].id);
                assert(self.pending@[b].id == before[b].id);
            }
            assert forall|i: int| 0 <= i < self.pending@.len() implies (#[trigger] self.pending@[i]).id.0 <= self.next_job by {
                assert(self.pending@[i].id == before[i].id);
            }
            assert forall|k: int| 0 <= k < self.queue@.len() implies queued_open(
                self.pending@,
                #[trigger] self.queue@[k],
            ) by {
                let q = self.queue@[k];
                assert(queued_open(before, q));
                let m = choose|m: int| job_at(before, q, m) && before[m].execution is Queued;
                assert(job_at(self.pending@, q, m));
            }
        }
        match reuse {
            Some((document, revision)) => Resolution::Reused { document, revision },
            None => Resolution::Load,
        }
    }

    /// Whether job `id` is still wanted: it exists and was not cancelled.
    pub fn still_wanted(&self, id: OpenJobId) -> (b: bool)
        requires
            self.wf(),
        ensures
            b == exists|j: int| job_at(self.pending(), id, j) && !(self.pending()[j].execution is Cancelling),
    {
        match find_open(&self.pending, id) {
            None => false,
            Some(j) => {
                proof {
                    assert forall|m: int| job_at(self.pending(), id, m) implies m == j by {
                        lemma_unique(self.pending@, id, j as int, m);
                    }
                }
                match self.pending[j].execution {
                    Execution::Cancelling(_) => false,
                    _ => true,
                }
            },
        }
    }


    /// Publishes the result of the running job `id`: it enters its finishing
    /// phase and keeps its slot until [`Registry::retire`]. Nothing is
    /// published when the job was cancelled, the service is stopping, or the
    /// reloaded document is gone; a read revision is then dropped. A read
    /// open becomes a new entry; a read reload replaces the entry's revision
    /// and cancels the document's previews; a reused document must still be
    /// open. Only the job holding the activation intent activates its
    /// document, and it gives the intent up in any case.
    pub fn publish(&mut self, id: OpenJobId, result: Computed, now: std::time::Instant) -> (p: Published)
        requires
            old(self).wf(),
            exists|j: int|
                #![trigger job_at(old(self).pending(), id, j)]
                job_at(old(self).pending(), id, j) && (old(self).pending()[j].execution is Running || old(self).pending()[j].execution is Cancelling),
        ensures
            final(self).wf(),
            final(self).queue() == old(self).queue(),
            final(self).is_stopping() == old(self).is_stopping(),
            final(self).last_job() == old(self).last_job(),
            final(self).closed() == old(self).closed(),
            final(self).selections() == old(self).selections(),
            final(self).activation() == if old(self).activation() == Some(id) {
                None
            } else {
                old(self).activation()
            },
            forall|j: int|
                #![trigger job_at(old(self).pending(), id, j)]
                job_at(old(self).pending(), id, j) ==> {
                    let job = old(self).pending()[j];
                    let intent = old(self).activation() == Some(id);
                    &&& final(self).pending() == old(self).pending().update(
                        j,
                        OpenRecord { execution: finishing(job.execution), ..job },
                    )
                    &&& if publish_cancelled(job, old(self).is_stopping(), old(self).documents()) {
                        &&& p.outcome == PublishOutcome::Cancelled
                        &&& p.fate == if result is Loaded {
                            RevisionFate::Discard
                        } else {
                            RevisionFate::Nothing
                        }
                        &&& p.previews@.len() == 0
                        &&& final(self).documents() == old(self).documents()
                        &&& final(self).active() == old(self).active()
                        &&& final(self).version() == old(self).version()
                        &&& final(self).previews() == old(self).previews()
                        &&& final(self).preview_queue() == old(self).preview_queue()
                    } else {
                        match result {
                            Computed::Failed => {
                                &&& p.outcome == PublishOutcome::Failed
                                &&& p.fate == RevisionFate::Nothing
                                &&& p.previews@.len() == 0
                                &&& final(self).documents() == old(self).documents()
                                &&& final(self).active() == old(self).active()
                                &&& final(self).version() == old(self).version()
                                &&& final(self).previews() == old(self).previews()
                                &&& final(self).preview_queue() == old(self).preview_queue()
                            },
                            Computed::Cancelled => {
                                &&& p.outcome == PublishOutcome::Cancelled
                                &&& p.fate == RevisionFate::Nothing
                                &&& p.previews@.len() == 0
                                &&& final(self).documents() == old(self).documents()
                                &&& final(self).active() == old(self).active()
                                &&& final(self).version() == old(self).version()
                                &&& final(self).previews() == old(self).previews()
                                &&& final(self).preview_queue() == old(self).preview_queue()
                            },
                            Computed::Reused { document, revision } => {
                                &&& p.fate == RevisionFate::Nothing
                                &&& p.previews@.len() == 0
                                &&& final(self).documents() == old(self).documents()
                                &&& final(self).previews() == old(self).previews()
                                &&& final(self).preview_queue() == old(self).preview_queue()
                                &&& if has_document(old(self).documents(), document) {
                                    let next = if intent {
                                        Some(document)
                                    } else {
                                        old(self).active()
                                    };
                                    if next != old(self).active() && old(self).version() == u64::MAX {
                                        &&& p.outcome == PublishOutcome::Exhausted
                                        &&& final(self).active() == old(self).active()
                                        &&& final(self).version() == old(self).version()
                                    } else {
                                        &&& p.outcome == (PublishOutcome::Opened {
                                            document_id: document,
                                            revision_id: revision,
                                            reused: true,
                                        })
                                        &&& final(self).active() == next
                                        &&& final(self).version() == activated_version(
                                            old(self).active(),
                                            old(self).version(),
                                            next,
                                        )
                                    }
                                } else {
                                    &&& p.outcome == PublishOutcome::Cancelled
                                    &&& final(self).active() == old(self).active()
                                    &&& final(self).version() == old(self).version()
                                }
                            },
                            Computed::Loaded { path } => {
                                let revision = RevisionId(id.0);
                                let next = if intent {
                                    Some(job.document)
                                } else {
                                    old(self).active()
                                };
                                let bump = if job.kind == OpenKind::Reload {
                                    old(self).active() == Some(job.document)
                                } else {
                                    next != old(self).active()
                                };
                                if bump && old(self).version() == u64::MAX {
                                    &&& p.outcome == PublishOutcome::Exhausted
                                    &&& p.fate == RevisionFate::Discard
                                    &&& p.previews@.len() == 0
                                    &&& final(self).documents() == old(self).documents()
                                    &&& final(self).active() == old(self).active()
                                    &&& final(self).version() == old(self).version()
                                    &&& final(self).previews() == old(self).previews()
                                    &&& final(self).preview_queue() == old(self).preview_queue()
                                } else {
                                    &&& p.outcome == (PublishOutcome::Opened {
                                        document_id: job.document,
                                        revision_id: revision,
                                        reused: false,
                                    })
                                    &&& final(self).version() == if bump {
                                        (old(self).version() + 1) as u64
                                    } else {
                                        old(self).version()
                                    }
                                    &&& if job.kind == OpenKind::Reload {
                                        &&& final(self).active() == old(self).active()
                                        &&& p.previews@ == preview_dequeued(old(self).previews(), Some(job.document))
                                        &&& final(self).previews() == after_preview_cancel(
                                            old(self).previews(),
                                            Some(job.document),
                                            now,
                                        )
                                        &&& final(self).preview_queue() == without_previews(
                                            old(self).preview_queue(),
                                            p.previews@,
                                        )
                                        &&& forall|k: int|
                                            #![trigger first_document(old(self).documents(), job.document, k)]
                                            first_document(old(self).documents(), job.document, k) ==> {
                                                &&& p.fate == RevisionFate::Replace(old(self).documents()[k].revision)
                                                &&& final(self).documents() == old(self).documents().update(
                                                    k,
                                                    EntryRecord { revision, ..old(self).documents()[k] },
                                                )
                                            }
                                    } else {
                                        let n = old(self).documents().len();
                                        &&& p.fate == RevisionFate::Insert
                                        &&& p.previews@.len() == 0
                                        &&& final(self).previews() == old(self).previews()
                                        &&& final(self).preview_queue() == old(self).preview_queue()
                                        &&& final(self).active() == next
                                        &&& final(self).documents().len() == n + 1
                                        &&& final(self).documents().take(n as int) == old(self).documents()
                                        &&& final(self).documents()[n as int].document == job.document
                                        &&& final(self).documents()[n as int].revision == revision
                                        &&& final(self).documents()[n as int].path == path
                                        &&& path_view(final(self).documents()[n as int].request_path) == path_view(
                                            job.path,
                                        )
                                        &&& final(self).documents()[n as int].selection is None
                                        &&& final(self).documents()[n as int].selected_layer is None
                                    }
                                }
                            },
                        }
                    }
                },
    {
        let j = match find_open(&self.pending, id) {
            Some(j) => j,
            None => {
                proof {
                    let m = choose|m: int| #![trigger job_at(old(self).pending(), id, m)] job_at(old(self).pending(), id, m)
                        && (old(self).pending()[m].execution is Running || old(self).pending()[m].execution is Cancelling);
                    assert(old(self).pending@[m].id == id);
                }
                return Published { outcome: PublishOutcome::Cancelled, fate: RevisionFate::Nothing, previews: Vec::new() };
            },
        };
        proof {
            assert forall|m: int| job_at(old(self).pending(), id, m) implies m == j by {
                lemma_unique(old(self).pending@, id, j as int, m);
            }
        }
        let intent = match self.activation {
            Some(a) => a.0 == id.0,
            None => false,
        };
        let ghost before = self.pending@;
        let mut job = self.pending.remove(j);
        let was_cancelling = match job.execution {
            Execution::Cancelling(_) => true,
            _ => false,
        };
        job.execution = match job.execution {
            Execution::Running(at) => Execution::Finishing(at),
            Execution::Cancelling(at) => Execution::Finishing(at),
            e => e,
        };
        let document = job.document;
        let reload = match job.kind {
            OpenKind::Reload => true,
            OpenKind::Open => false,
        };
        let request_path = copy_path(&job.path);
        self.pending.insert(j, job);
        proof {
            assert(self.pending@ =~= before.update(
                j as int,
                OpenRecord { execution: finishing(before[j as int].execution), ..before[j as int] },
            ));
            assert forall|a: int, b: int| 0 <= a < b < self.pending@.len() implies (#[trigger] self.pending@[a]).id.0
                < (#[trigger] self.pending@[b]).id.0 by {
                assert(self.pending@[a].id == before[a].id);
                assert(self.pending@[b].id == before[b].id);
            }
            assert forall|i: int| 0 <= i < self.pending@.len() implies (#[trigger] self.pending@[i]).id.0 <= self.next_job by {
                assert(self.pending@[i].id == before[i].id);
            }
            assert forall|k: int| 0 <= k < self.queue@.len() implies queued_open(
                self.pending@,
                #[trigger] self.queue@[k],
            ) by {
                let q = self.queue@[k];
                assert(queued_open(before, q));
                let m = choose|m: int| job_at(before, q, m) && before[m].execution is Queued;
                assert(m != j);
                assert(job_at(self.pending@, q, m));
            }
        }
        if intent {
            self.activation = None;
        }
        let entry = find_document(&self.documents, document);
        let cancelled = was_cancelling || self.stopping || (reload && entry.is_none());
        if cancelled {
            let fate = match result {
                Computed::Loaded { .. } => RevisionFate::Discard,
                _ => RevisionFate::Nothing,
            };
            return Published { outcome: PublishOutcome::Cancelled, fate, previews: Vec::new() };
        }
        match result {
            Computed::Failed => Published { outcome: PublishOutcome::Failed, fate: RevisionFate::Nothing, previews: Vec::new() },
            Computed::Cancelled => Published {
                outcome: PublishOutcome::Cancelled,
                fate: RevisionFate::Nothing,
                previews: Vec::new(),
            },
            Computed::Reused { document: reused, revision } => {
                if find_document(&self.documents, reused).is_some() {
                    let changes = intent && match self.active {
                        Some(a) => a.0 != reused.0,
                        None => true,
                    };
                    if changes && self.version == u64::MAX {
                        return Published { outcome: PublishOutcome::Exhausted, fate: RevisionFate::Nothing, previews: Vec::new() };
                    }
                    if changes {
                        self.active = Some(reused);
                        self.version = self.version + 1;
                    }
                    Published {
                        outcome: PublishOutcome::Opened { document_id: reused, revision_id: revision, reused: true },
                        fate: RevisionFate::Nothing,
                        previews: Vec::new(),
                    }
                } else {
                    Published { outcome: PublishOutcome::Cancelled, fate: RevisionFate::Nothing, previews: Vec::new() }
                }
            },
            Computed::Loaded { path } => {
                let revision = RevisionId(id.0);
                let outcome = PublishOutcome::Opened { document_id: document, revision_id: revision, reused: false };
                if reload {
                    let k = match entry {
                        Some(k) => k,
                        None => {
                            return Published { outcome, fate: RevisionFate::Nothing, previews: Vec::new() };
                        },
                    };
                    proof {
                        assert forall|m: int| first_document(old(self).documents(), document, m) implies m == k by {
                            if m < k {
                            } else if k < m {
                                assert(old(self).documents@[k as int].document == document);
                            }
                        }
                    }
                    let bump = match self.active {
                        Some(a) => a.0 == document.0,
                        None => false,
                    };
                    if bump && self.version == u64::MAX {
                        return Published { outcome: PublishOutcome::Exhausted, fate: RevisionFate::Discard, previews: Vec::new() };
                    }
                    let ghost docs = self.documents@;
                    let mut e = self.documents.remove(k);
                    let previous = e.revision;
                    e.revision = revision;
                    self.documents.insert(k, e);
                    proof {
                        assert(self.documents@ =~= docs.update(k as int, EntryRecord { revision, ..docs[k as int] }));
                    }
                    if bump {
                        self.version = self.version + 1;
                    }
                    let dequeued = self.invalidate_previews(Some(document), now);
                    Published { outcome, fate: RevisionFate::Replace(previous), previews: dequeued }
                } else {
                    let changes = intent && match self.active {
                        Some(a) => a.0 != document.0,
                        None => true,
                    };
                    if changes && self.version == u64::MAX {
                        return Published { outcome: PublishOutcome::Exhausted, fate: RevisionFate::Discard, previews: Vec::new() };
                    }
                    let ghost docs = self.documents@;
                    self.documents.push(
                        EntryRecord { document, revision, path, request_path, selection: None, selected_layer: None },
                    );
                    proof {
                        assert(self.documents@.take(docs.len() as int) =~= docs);
                    }
                    if changes {
                        self.active = Some(document);
                        self.version = self.version + 1;
                    }
                    Published { outcome, fate: RevisionFate::Insert, previews: Vec::new() }
                }
            },
        }
    }

    /// Drops the record of a job that finished publishing, once the data it
    /// released is gone, and the closed paths it no longer guards.
    pub fn retire(&mut self, id: OpenJobId)
        requires
            old(self).wf(),
        ensures
            final(self).wf(),
            final(self).documents() == old(self).documents(),
            final(self).active() == old(self).active(),
            final(self).activation() == old(self).activation(),
            final(self).queue() == old(self).queue(),
            final(self).previews() == old(self).previews(),
            final(self).preview_queue() == old(self).preview_queue(),
            final(self).is_stopping() == old(self).is_stopping(),
            final(self).last_job() == old(self).last_job(),
            final(self).version() == old(self).version(),
            final(self).selections() == old(self).selections(),
            forall|j: int|
                #![trigger job_at(old(self).pending(), id, j)]
                job_at(old(self).pending(), id, j) && old(self).pending()[j].execution is Finishing ==> final(self).pending() == old(self).pending().remove(j) && final(self).closed() == kept_closed(
                    old(self).closed(),
                    final(self).pending(),
                ),
            (forall|j: int|
                #![trigger job_at(old(self).pending(), id, j)]
                job_at(old(self).pending(), id, j) ==> !(old(self).pending()[j].execution is Finishing)) ==> final(self).pending() == old(self).pending() && final(self).closed() == old(self).closed(),
    {
        let j = match find_open(&self.pending, id) {
            Some(j) => j,
            None => {
                return;
            },
        };
        proof {
            assert forall|m: int| job_at(old(self).pending(), id, m) implies m == j by {
                lemma_unique(old(self).pending@, id, j as int, m);
            }
        }
        let finishing = match self.pending[j].execution {
            Execution::Finishing(_) => true,
            _ => false,
        };
        if !finishing {
            return;
        }
        let ghost before = self.pending@;
        self.pending.remove(j);
        proof {
            assert forall|a: int, b: int| 0 <= a < b < self.pending@.len() implies (#[trigger] self.pending@[a]).id.0
                < (#[trigger] self.pending@[b]).id.0 by {
                let a0 = if a < j { a } else { a + 1 };
                let b0 = if b < j { b } else { b + 1 };
                assert(self.pending@[a] == before[a0]);
                assert(self.pending@[b] == before[b0]);
            }
            assert forall|i: int| 0 <= i < self.pending@.len() implies (#[trigger] self.pending@[i]).id.0 <= self.next_job by {
                let i0 = if i < j { i } else { i + 1 };
                assert(self.pending@[i] == before[i0]);
            }
            assert forall|k: int| 0 <= k < self.queue@.len() implies queued_open(
                self.pending@,
                #[trigger] self.queue@[k],
            ) by {
                let q = self.queue@[k];
                assert(queued_open(before, q));
                let m = choose|m: int| job_at(before, q, m) && before[m].execution is Queued;
                assert(m != j);
                if m < j {
                    assert(job_at(self.pending@, q, m));
                } else {
                    assert(job_at(self.pending@, q, m - 1));
                }
            }
        }
        self.prune_closed_paths();
    }


    /// Admits a reload of a published document. Earlier reloads of it that
    /// still accept a cancel are cancelled once the new job is admitted; their
    /// queued ones free their slots for the admission check. Gives back the
    /// new job and the dequeued earlier jobs, which finish as cancelled.
    pub fn reload(&mut self, document: DocumentId, max_pending: usize) -> (r: Result<
        (OpenJobId, Vec<OpenJobId>),
        DocumentError,
    >)
        requires
            old(self).wf(),
        ensures
            final(self).wf(),
            if old(self).is_stopping() {
                unchanged(*final(self), *old(self)) && (r matches Err(DocumentError::ShuttingDown))
            } else if !has_document(old(self).documents(), document) {
                unchanged(*final(self), *old(self)) && r == Err::<(OpenJobId, Vec<OpenJobId>), DocumentError>(
                    DocumentError::NotFound(document),
                )
            } else if old(self).pending().len() + old(self).previews().len() - dequeued_ids(
                old(self).pending(),
                CancelRule::Reloads(document),
            ).len() >= max_pending {
                unchanged(*final(self), *old(self)) && (r matches Err(DocumentError::QueueFull { limit })
                    && limit == max_pending)
            } else if old(self).last_job() == u64::MAX {
                unchanged(*final(self), *old(self)) && (r matches Err(DocumentError::IdExhausted))
            } else {
                let id = OpenJobId((old(self).last_job() + 1) as u64);
                let rule = CancelRule::Reloads(document);
                let kept = after_cancel(old(self).pending(), rule);
                &&& r matches Ok((job, removed))
                &&& job == id
                &&& removed@ == dequeued_ids(old(self).pending(), rule)
                &&& final(self).pending().len() == kept.len() + 1
                &&& final(self).pending().take(kept.len() as int) == kept
                &&& final(self).pending()[kept.len() as int].id == id
                &&& final(self).pending()[kept.len() as int].document == document
                &&& final(self).pending()[kept.len() as int].kind == OpenKind::Reload
                &&& final(self).pending()[kept.len() as int].canonical is None
                &&& final(self).pending()[kept.len() as int].execution is Queued
                &&& forall|k: int|
                    #![trigger first_document(old(self).documents(), document, k)]
                    first_document(old(self).documents(), document, k) ==> path_view(
                        final(self).pending()[kept.len() as int].path,
                    ) == path_view(old(self).documents()[k].path)
                &&& final(self).queue() == without_ids(old(self).queue(), removed@).push(id)
                &&& final(self).closed() == kept_closed(old(self).closed(), kept)
                &&& final(self).last_job() == old(self).last_job() + 1
                &&& final(self).documents() == old(self).documents()
                &&& final(self).active() == old(self).active()
                &&& final(self).activation() == old(self).activation()
                &&& final(self).previews() == old(self).previews()
                &&& final(self).preview_queue() == old(self).preview_queue()
                &&& final(self).is_stopping() == old(self).is_stopping()
                &&& final(self).version() == old(self).version()
                &&& final(self).selections() == old(self).selections()
            },
    {
        if self.stopping {
            return Err(DocumentError::ShuttingDown);
        }
        let k = match find_document(&self.documents, document) {
            None => {
                return Err(DocumentError::NotFound(document));
            },
            Some(k) => k,
        };
        proof {
            assert forall|m: int| first_document(old(self).documents(), document, m) implies m == k by {
                if m < k {
                } else if k < m {
                    assert(old(self).documents@[k as int].document == document);
                }
            }
        }
        let path = copy_path(&self.documents[k].path);
        let rule = CancelRule::Reloads(document);
        let removable = count_dequeued(&self.pending, &rule);
        proof {
            lemma_dequeued_len(self.pending@, rule);
        }
        let busy = self.pending.len() - removable;
        if busy >= max_pending || self.previews.len() >= max_pending - busy {
            return Err(DocumentError::QueueFull { limit: max_pending });
        }
        let id = match self.allocate_id() {
            Ok(n) => n,
            Err(e) => {
                return Err(e);
            },
        };
        let removed = self.cancel_where(&rule);
        proof {
            lemma_after_cancel_ids(old(self).pending(), rule);
            assert forall|i: int| 0 <= i < self.pending().len() implies (#[trigger] self.pending()[i]).id.0 < id.0 by {
                let m = choose|m: int| 0 <= m < old(self).pending().len() && self.pending()[i].id == old(self).pending()[m].id;
                assert(old(self).pending@[m].id.0 <= old(self).next_job);
            }
        }
        let ghost kept = self.pending@;
        self.enqueue(id, document, OpenKind::Reload, path);
        proof {
            assert(self.pending@.take(kept.len() as int) =~= kept);
        }
        Ok((id, removed))
    }

    /// Closes a published document: its entry goes, focus moves to the right
    /// neighbour, else the left one, when it was active; its jobs and those of
    /// its paths are cancelled; its path is closed to earlier jobs; its
    /// previews are cancelled. Gives back the entry and the dequeued open and
    /// preview jobs.
    pub fn close(&mut self, document: DocumentId, now: std::time::Instant) -> (r: Result<Closed, DocumentError>)
        requires
            old(self).wf(),
        ensures
            final(self).wf(),
            old(self).active() != Some(document) ==> final(self).active() == old(self).active()
                && final(self).version() == old(self).version(),
            if old(self).is_stopping() {
                unchanged(*final(self), *old(self)) && (r matches Err(DocumentError::ShuttingDown))
            } else if !has_document(old(self).documents(), document) {
                unchanged(*final(self), *old(self)) && (r matches Err(DocumentError::NotFound(d)) && d == document)
            } else {
                forall|k: int|
                    #![trigger first_document(old(self).documents(), document, k)]
                    first_document(old(self).documents(), document, k) ==> {
                        let rest = old(self).documents().remove(k);
                        let next = focus_after_close(old(self).active(), document, rest, k);
                        if old(self).active() != next && old(self).version() == u64::MAX {
                            unchanged(*final(self), *old(self)) && (r matches Err(DocumentError::IdExhausted))
                        } else {
                            let e = old(self).documents()[k];
                            let rule = CancelRule::Closed {
                                document,
                                path: e.path,
                                request_path: e.request_path,
                            };
                            let kept = after_cancel(old(self).pending(), rule);
                            &&& r matches Ok(c)
                            &&& c.entry == e
                            &&& c.jobs@ == dequeued_ids(old(self).pending(), rule)
                            &&& c.previews@ == preview_dequeued(old(self).previews(), Some(document))
                            &&& c.selections@ == cache_of(old(self).selections().1, document)
                            &&& final(self).selections() == (
                                old(self).selections().0,
                                cache_without(old(self).selections().1, document),
                            )
                            &&& final(self).documents() == rest
                            &&& final(self).active() == next
                            &&& final(self).version() == activated_version(
                                old(self).active(),
                                old(self).version(),
                                next,
                            )
                            &&& final(self).pending() == kept
                            &&& final(self).queue() == without_ids(old(self).queue(), c.jobs@)
                            &&& final(self).closed() == kept_closed(
                                kept_closed(old(self).closed(), kept).push(
                                    (path_view(e.path), OpenJobId(old(self).last_job())),
                                ),
                                kept,
                            )
                            &&& final(self).previews() == after_preview_cancel(
                                old(self).previews(),
                                Some(document),
                                now,
                            )
                            &&& final(self).preview_queue() == without_previews(
                                old(self).preview_queue(),
                                c.previews@,
                            )
                            &&& final(self).activation() == old(self).activation()
                            &&& final(self).is_stopping() == old(self).is_stopping()
                            &&& final(self).last_job() == old(self).last_job()
                        }
                    }
            },
    {
        if self.stopping {
            return Err(DocumentError::ShuttingDown);
        }
        let k = match find_document(&self.documents, document) {
            None => {
                return Err(DocumentError::NotFound(document));
            },
            Some(k) => k,
        };
        proof {
            assert forall|m: int| first_document(old(self).documents(), document, m) implies m == k by {
                if m < k {
                } else if k < m {
                    assert(old(self).documents@[k as int].document == document);
                }
            }
        }
        let is_active = match self.active {
            Some(a) => a.0 == document.0,
            None => false,
        };
        let n = self.documents.len();
        let next = if !is_active {
            self.active
        } else if k + 1 < n {
            Some(self.documents[k + 1].document)
        } else if k > 0 {
            Some(self.documents[k - 1].document)
        } else {
            None
        };
        proof {
            let rest = old(self).documents().remove(k as int);
            assert(next == focus_after_close(old(self).active(), document, rest, k as int));
        }
        match self.set_active(next) {
            Ok(()) => {},
            Err(e) => {
                return Err(e);
            },
        }
        let entry = self.documents.remove(k);
        let rule = CancelRule::Closed {
            document,
            path: copy_path(&entry.path),
            request_path: copy_path(&entry.request_path),
        };
        let removed = self.cancel_where(&rule);
        proof {
            lemma_after_cancel_same_rule(
                old(self).pending(),
                rule,
                CancelRule::Closed { document, path: entry.path, request_path: entry.request_path },
            );
        }
        let ghost kept = self.pending@;
        let ghost pruned = self.closed();
        self.closed_paths.push(ClosedPath { path: copy_path(&entry.path), cutoff: OpenJobId(self.next_job) });
        proof {
            assert(closed_view(self.closed_paths@) =~= pruned.push(
                (path_view(entry.path), OpenJobId(old(self).last_job())),
            ));
        }
        self.prune_closed_paths();
        let previews = self.invalidate_previews(Some(document), now);
        let selections = self.retire_selections(document);
        Ok(Closed { entry, jobs: removed, previews, selections })
    }


    /// Stops admission: drops the activation intent, cancels every open and
    /// preview job, and gives back the dequeued ones.
    pub fn request_shutdown(&mut self, now: std::time::Instant) -> (r: (Vec<OpenJobId>, Vec<PreviewJobId>))
        requires
            old(self).wf(),
        ensures
            final(self).wf(),
            final(self).is_stopping(),
            final(self).activation() is None,
            r.0@ == dequeued_ids(old(self).pending(), CancelRule::All),
            r.1@ == preview_dequeued(old(self).previews(), None),
            final(self).pending() == after_cancel(old(self).pending(), CancelRule::All),
            final(self).queue() == without_ids(old(self).queue(), r.0@),
            final(self).closed() == kept_closed(old(self).closed(), final(self).pending()),
            final(self).previews() == after_preview_cancel(old(self).previews(), None, now),
            final(self).preview_queue() == without_previews(old(self).preview_queue(), r.1@),
            final(self).documents() == old(self).documents(),
            final(self).active() == old(self).active(),
            final(self).last_job() == old(self).last_job(),
            final(self).version() == old(self).version(),
            final(self).selections() == old(self).selections(),
    {
        self.stopping = true;
        self.activation = None;
        let removed = self.cancel_where(&CancelRule::All);
        let previews = self.invalidate_previews(None, now);
        (removed, previews)
    }

    /// After the worker ended: the entries leave the registry and nothing is active.
    pub fn drain(&mut self) -> (entries: Vec<EntryRecord>)
        requires
            old(self).wf(),
        ensures
            final(self).wf(),
            entries@ == old(self).documents(),
            final(self).documents().len() == 0,
            final(self).active() is None,
            final(self).activation() == old(self).activation(),
            final(self).pending() == old(self).pending(),
            final(self).queue() == old(self).queue(),
            final(self).previews() == old(self).previews(),
            final(self).preview_queue() == old(self).preview_queue(),
            final(self).is_stopping() == old(self).is_stopping(),
            final(self).last_job() == old(self).last_job(),
            final(self).closed() == old(self).closed(),
            final(self).version() == old(self).version(),
            final(self).selections() == old(self).selections(),
    {
        self.active = None;
        let mut entries: Vec<EntryRecord> = Vec::new();
        std::mem::swap(&mut self.documents, &mut entries);
        entries
    }

    /// Cancels the preview job `id`: a queued job leaves the queue and
    /// starts finishing at `now` (release it with [`Registry::release_preview`]),
    /// a running one is marked, anything else is refused.
    pub fn cancel_preview(&mut self, id: PreviewJobId, now: std::time::Instant) -> (effect: CancelEffect)
        requires
            old(self).wf(),
        ensures
            final(self).wf(),
            final(self).documents() == old(self).documents(),
            final(self).active() == old(self).active(),
            final(self).activation() == old(self).activation(),
            final(self).pending() == old(self).pending(),
            final(self).queue() == old(self).queue(),
            final(self).is_stopping() == old(self).is_stopping(),
            final(self).last_job() == old(self).last_job(),
            final(self).closed() == old(self).closed(),
            final(self).version() == old(self).version(),
            final(self).selections() == old(self).selections(),
            (forall|i: int| 0 <= i < old(self).previews().len() ==> (#[trigger] old(self).previews()[i]).id != id)
                ==> effect == CancelEffect::Refused && final(self).previews() == old(self).previews()
                && final(self).preview_queue() == old(self).preview_queue(),
            forall|i: int|
                #![trigger preview_at(old(self).previews(), id, i)]
                preview_at(old(self).previews(), id, i) ==> {
                    &&& final(self).previews() == old(self).previews().update(
                        i,
                        preview_cancelled(old(self).previews()[i], now),
                    )
                    &&& match old(self).previews()[i].execution {
                        Execution::Queued => effect == CancelEffect::Dequeued && final(self).preview_queue()
                            == without_previews(old(self).preview_queue(), seq![id]),
                        Execution::Running(_) => effect == CancelEffect::Marked && final(self).preview_queue()
                            == old(self).preview_queue(),
                        _ => effect == CancelEffect::Refused && final(self).preview_queue() == old(
                            self,
                        ).preview_queue(),
                    }
                },
    {
        let i = match find_preview(&self.previews, id) {
            None => {
                return CancelEffect::Refused;
            },
            Some(i) => i,
        };
        proof {
            assert forall|m: int| preview_at(old(self).previews(), id, m) implies m == i by {
                if m < i {
                    assert(self.previews@[m].id.0 < self.previews@[i as int].id.0);
                } else if i < m {
                    assert(self.previews@[i as int].id.0 < self.previews@[m].id.0);
                }
            }
        }
        let r = self.previews[i];
        match r.execution {
            Execution::Queued => {
                self.previews.set(i, PreviewRecord { execution: Execution::Finishing(now), ..r });
                let mut ids: Vec<PreviewJobId> = Vec::new();
                ids.push(id);
                let queue = previews_without(&self.preview_queue, &ids);
                proof {
                    assert(ids@ =~= seq![id]);
                    lemma_without_previews_ascending(self.preview_queue@, ids@);
                }
                self.preview_queue = queue;
                proof {
                    assert forall|a: int, b: int| 0 <= a < b < self.previews@.len() implies (#[trigger] self.previews@[a]).id.0
                        < (#[trigger] self.previews@[b]).id.0 by {
                        assert(self.previews@[a].id == old(self).previews@[a].id);
                        assert(self.previews@[b].id == old(self).previews@[b].id);
                    }
                    assert forall|j: int| 0 <= j < self.previews@.len() implies (#[trigger] self.previews@[j]).id.0 <= self.next_job by {
                        assert(self.previews@[j].id == old(self).previews@[j].id);
                    }
                    assert forall|k: int| 0 <= k < self.preview_queue@.len() implies queued_preview(
                        self.previews@,
                        #[trigger] self.preview_queue@[k],
                    ) by {
                        let q = self.preview_queue@[k];
                        lemma_without_previews(old(self).preview_queue@, ids@, k);
                        let m = choose|m: int| 0 <= m < old(self).preview_queue@.len() && old(self).preview_queue@[m] == q;
                        assert(queued_preview(old(self).previews@, old(self).preview_queue@[m]));
                        let j = choose|j: int| preview_at(old(self).previews@, q, j) && old(self).previews@[j].execution is Queued;
                        assert(ids@[0] == id);
                        assert(q != id);
                        assert(j != i);
                        assert(preview_at(self.previews@, q, j));
                    }
                }
                CancelEffect::Dequeued
            },
            Execution::Running(at) => {
                self.previews.set(i, PreviewRecord { execution: Execution::Cancelling(at), ..r });
                proof {
                    assert forall|a: int, b: int| 0 <= a < b < self.previews@.len() implies (#[trigger] self.previews@[a]).id.0
                        < (#[trigger] self.previews@[b]).id.0 by {
                        assert(self.previews@[a].id == old(self).previews@[a].id);
                        assert(self.previews@[b].id == old(self).previews@[b].id);
                    }
                    assert forall|j: int| 0 <= j < self.previews@.len() implies (#[trigger] self.previews@[j]).id.0 <= self.next_job by {
                        assert(self.previews@[j].id == old(self).previews@[j].id);
                    }
                    assert forall|k: int| 0 <= k < self.preview_queue@.len() implies queued_preview(
                        self.previews@,
                        #[trigger] self.preview_queue@[k],
                    ) by {
                        let q = self.preview_queue@[k];
                        assert(queued_preview(old(self).previews@, q));
                        let j = choose|j: int| preview_at(old(self).previews@, q, j) && old(self).previews@[j].execution is Queued;
                        assert(j != i);
                        assert(preview_at(self.previews@, q, j));
                    }
                }
                CancelEffect::Marked
            },
            _ => {
                proof {
                    assert(self.previews@ =~= old(self).previews@.update(i as int, preview_cancelled(old(self).previews@[i as int], now)));
                }
                CancelEffect::Refused
            },
        }
    }

    /// Whether the preview job `id` was cancelled while it ran.
    pub fn preview_cancelled(&self, id: PreviewJobId) -> (b: bool)
        requires
            self.wf(),
        ensures
            b == exists|i: int| preview_at(self.previews(), id, i) && self.previews()[i].execution is Cancelling,
    {
        match find_preview(&self.previews, id) {
            None => false,
            Some(i) => {
                proof {
                    assert forall|m: int| preview_at(self.previews(), id, m) implies m == i by {
                        if m < i {
                            assert(self.previews@[m].id.0 < self.previews@[i as int].id.0);
                        } else if i < m {
                            assert(self.previews@[i as int].id.0 < self.previews@[m].id.0);
                        }
                    }
                }
                match self.previews[i].execution {
                    Execution::Cancelling(_) => true,
                    _ => false,
                }
            },
        }
    }

    /// Publishes the result of the running preview job `id`: it enters its
    /// finishing phase. Nothing is published when it was cancelled, the
    /// service is stopping, or its revision is no longer current; a rendered
    /// image is then dropped. A published image is also offered to the
    /// cache, which gives back what it evicted.
    pub fn publish_preview(&mut self, id: PreviewJobId, result: Rendered, cache: &mut PreviewCache, config: PreviewConfig) -> (r: (
        PreviewPublished,
        Vec<PreviewLease>,
    ))
        requires
            old(self).wf(),
            old(cache).wf(),
            exists|i: int|
                #![trigger preview_at(old(self).previews(), id, i)]
                preview_at(old(self).previews(), id, i) && (old(self).previews()[i].execution is Running || old(
                    self,
                ).previews()[i].execution is Cancelling),
        ensures
            final(self).wf(),
            final(cache).wf(),
            final(self).documents() == old(self).documents(),
            final(self).active() == old(self).active(),
            final(self).activation() == old(self).activation(),
            final(self).pending() == old(self).pending(),
            final(self).queue() == old(self).queue(),
            final(self).preview_queue() == old(self).preview_queue(),
            final(self).is_stopping() == old(self).is_stopping(),
            final(self).last_job() == old(self).last_job(),
            final(self).closed() == old(self).closed(),
            final(self).version() == old(self).version(),
            final(self).selections() == old(self).selections(),
            forall|i: int|
                #![trigger preview_at(old(self).previews(), id, i)]
                preview_at(old(self).previews(), id, i) ==> {
                    let job = old(self).previews()[i];
                    &&& final(self).previews() == old(self).previews().update(
                        i,
                        PreviewRecord { execution: finishing(job.execution), ..job },
                    )
                    &&& if job.execution is Cancelling || old(self).is_stopping() || !current_revision(
                        old(self).documents(),
                        job.key.revision,
                    ) {
                        r.0 is Cancelled && r.1@.len() == 0 && final(cache)@ == old(cache)@
                    } else {
                        match result {
                            Rendered::Image(image) => {
                                &&& r.0 matches PreviewPublished::Ready(x) && x == image
                                &&& if config.max_cache_entries == 0 || image.0.charge() > config.max_cache_bytes {
                                    r.1@.len() == 0 && final(cache)@ == old(cache)@
                                } else {
                                    &&& r.1@ == old(cache)@.take(r.1@.len() as int)
                                    &&& final(cache)@ == old(cache)@.skip(r.1@.len() as int).push(image)
                                    &&& fits(old(cache)@.skip(r.1@.len() as int), image.0.charge(), config)
                                }
                            },
                            Rendered::Cancelled => r.0 is Cancelled && r.1@.len() == 0 && final(cache)@ == old(
                                cache,
                            )@,
                            Rendered::Failed => r.0 is Failed && r.1@.len() == 0 && final(cache)@ == old(cache)@,
                        }
                    }
                },
    {
        let i = match find_preview(&self.previews, id) {
            Some(i) => i,
            None => {
                proof {
                    let m = choose|m: int| #![trigger preview_at(old(self).previews(), id, m)] preview_at(old(self).previews(), id, m)
                        && (old(self).previews()[m].execution is Running || old(self).previews()[m].execution is Cancelling);
                    assert(old(self).previews@[m].id == id);
                }
                return (PreviewPublished::Cancelled, Vec::new());
            },
        };
        proof {
            assert forall|m: int| preview_at(old(self).previews(), id, m) implies m == i by {
                if m < i {
                    assert(self.previews@[m].id.0 < self.previews@[i as int].id.0);
                } else if i < m {
                    assert(self.previews@[i as int].id.0 < self.previews@[m].id.0);
                }
            }
        }
        let job = self.previews[i];
        let cancelled = match job.execution {
            Execution::Cancelling(_) => true,
            _ => false,
        };
        let execution = match job.execution {
            Execution::Running(at) => Execution::Finishing(at),
            Execution::Cancelling(at) => Execution::Finishing(at),
            e => e,
        };
        self.previews.set(i, PreviewRecord { execution, ..job });
        proof {
            assert forall|a: int, b: int| 0 <= a < b < self.previews@.len() implies (#[trigger] self.previews@[a]).id.0
                < (#[trigger] self.previews@[b]).id.0 by {
                assert(self.previews@[a].id == old(self).previews@[a].id);
                assert(self.previews@[b].id == old(self).previews@[b].id);
            }
            assert forall|j: int| 0 <= j < self.previews@.len() implies (#[trigger] self.previews@[j]).id.0 <= self.next_job by {
                assert(self.previews@[j].id == old(self).previews@[j].id);
            }
            assert forall|k: int| 0 <= k < self.preview_queue@.len() implies queued_preview(
                self.previews@,
                #[trigger] self.preview_queue@[k],
            ) by {
                let q = self.preview_queue@[k];
                assert(queued_preview(old(self).previews@, q));
                let j = choose|j: int| preview_at(old(self).previews@, q, j) && old(self).previews@[j].execution is Queued;
                assert(j != i);
                assert(preview_at(self.previews@, q, j));
            }
        }
        if cancelled || self.stopping || !is_current(&self.documents, job.key.revision) {
            return (PreviewPublished::Cancelled, Vec::new());
        }
        match result {
            Rendered::Image(image) => {
                let evicted = cache.insert(&image, config);
                (PreviewPublished::Ready(image), evicted)
            },
            Rendered::Cancelled => (PreviewPublished::Cancelled, Vec::new()),
            Rendered::Failed => (PreviewPublished::Failed, Vec::new()),
        }
    }


    /// Checks a selection change on `document` at `revision` against the
    /// current state and the version the caller saw; gives the entry index.
    fn check_selection(&self, document: DocumentId, revision: RevisionId, expected: u64) -> (r: Result<
        usize,
        SelectionError,
    >)
        ensures
            match selection_refusal(
                self.stopping,
                self.documents@,
                self.active,
                self.version,
                document,
                revision,
                expected,
            ) {
                Some(e) => r == Err::<usize, SelectionError>(e),
                None => r matches Ok(i) && first_document(self.documents@, document, i as int),
            },
    {
        if self.stopping {
            return Err(SelectionError::Document(DocumentError::ShuttingDown));
        }
        let i = match find_document(&self.documents, document) {
            None => {
                return Err(SelectionError::Document(DocumentError::NotFound(document)));
            },
            Some(i) => i,
        };
        proof {
            assert(first_document(self.documents@, document, i as int));
            let c = choose|k: int| first_document(self.documents@, document, k);
            if c < i {
            } else if i < c {
                assert(self.documents@[i as int].document == document);
            }
            assert(c == i);
        }
        if self.documents[i].revision.0 != revision.0 {
            return Err(SelectionError::Document(DocumentError::StaleRevision));
        }
        let is_active = match self.active {
            Some(a) => a.0 == document.0,
            None => false,
        };
        if !is_active {
            return Err(SelectionError::InactiveDocument);
        }
        if self.version != expected {
            return Err(SelectionError::StaleSelection);
        }
        Ok(i)
    }

    /// The committed selection of `document` at `revision`, checked as a
    /// change would be; the caller compares it with a prepared one.
    pub fn current_selection(&self, document: DocumentId, revision: RevisionId, expected: u64) -> (r: Result<
        Option<SnapshotId>,
        SelectionError,
    >)
        ensures
            match selection_refusal(
                self.is_stopping(),
                self.documents(),
                self.active(),
                self.version(),
                document,
                revision,
                expected,
            ) {
                Some(e) => r == Err::<Option<SnapshotId>, SelectionError>(e),
                None => r == Ok::<Option<SnapshotId>, SelectionError>(
                    self.documents()[choose|i: int| first_document(self.documents(), document, i)].selection,
                ),
            },
    {
        match self.check_selection(document, revision, expected) {
            Err(e) => Err(e),
            Ok(i) => {
                proof {
                    let c = choose|k: int| first_document(self.documents@, document, k);
                    if c < i {
                    } else if (i as int) < c {
                        assert(self.documents@[i as int].document == document);
                    }
                }
                Ok(self.documents[i].selection)
            },
        }
    }

    /// Samples the version and the active document's revision and selection.
    pub fn capture(&self) -> (c: Captured)
        ensures
            c == (Captured {
                version: self.version(),
                active: captured_active(self.documents(), self.active()),
            }),
    {
        let active = match self.active {
            None => None,
            Some(d) => match find_document(&self.documents, d) {
                None => None,
                Some(i) => {
                    proof {
                        assert(first_document(self.documents@, d, i as int));
                        let c = choose|k: int| first_document(self.documents@, d, k);
                        if c < i {
                        } else if (i as int) < c {
                            assert(self.documents@[i as int].document == d);
                        }
                        assert(c == i);
                    }
                    Some((self.documents[i].document, self.documents[i].revision, self.documents[i].selection))
                },
            },
        };
        Captured { version: self.version, active }
    }

    /// Empties the cache of earlier selections, for a retry of a refused
    /// snapshot reservation; gives the cached selections back.
    pub fn drop_selection_cache(&mut self) -> (removed: Vec<(SnapshotId, DocumentId)>)
        ensures
            removed@ == old(self).selections().1,
            final(self).selections() == (old(self).selections().0, Seq::<(SnapshotId, DocumentId)>::empty()),
            final(self).documents() == old(self).documents(),
            final(self).active() == old(self).active(),
            final(self).activation() == old(self).activation(),
            final(self).pending() == old(self).pending(),
            final(self).queue() == old(self).queue(),
            final(self).previews() == old(self).previews(),
            final(self).preview_queue() == old(self).preview_queue(),
            final(self).is_stopping() == old(self).is_stopping(),
            final(self).last_job() == old(self).last_job(),
            final(self).closed() == old(self).closed(),
            final(self).version() == old(self).version(),
            old(self).wf() ==> final(self).wf(),
    {
        let mut removed: Vec<(SnapshotId, DocumentId)> = Vec::new();
        std::mem::swap(&mut self.selection_cache, &mut removed);
        proof {
            assert(self.selection_cache@ =~= Seq::<(SnapshotId, DocumentId)>::empty());
        }
        removed
    }

    /// Keeps `previous` as the newest cached selection and evicts the oldest
    /// beyond `limit`; gives the evicted ones back.
    fn cache_previous(&mut self, previous: Option<(SnapshotId, DocumentId)>, limit: usize) -> (removed: Vec<
        (SnapshotId, DocumentId),
    >)
        ensures
            (removed@, final(self).selection_cache@) == cache_after(old(self).selection_cache@, previous, limit),
            final(self).documents == old(self).documents,
            final(self).active == old(self).active,
            final(self).activation == old(self).activation,
            final(self).pending == old(self).pending,
            final(self).queue == old(self).queue,
            final(self).previews == old(self).previews,
            final(self).preview_queue == old(self).preview_queue,
            final(self).stopping == old(self).stopping,
            final(self).next_job == old(self).next_job,
            final(self).closed_paths == old(self).closed_paths,
            final(self).version == old(self).version,
            final(self).last_snapshot == old(self).last_snapshot,
    {
        match previous {
            Some(p) => {
                self.selection_cache.push(p);
            },
            None => {},
        }
        let ghost c = self.selection_cache@;
        let count = if self.selection_cache.len() > limit {
            self.selection_cache.len() - limit
        } else {
            0
        };
        let mut removed: Vec<(SnapshotId, DocumentId)> = Vec::new();
        let mut k: usize = 0;
        while k < count
            invariant
                k <= count,
                count <= c.len(),
                removed@ == c.take(k as int),
                self.selection_cache@ == c.skip(k as int),
                self.documents == old(self).documents,
                self.active == old(self).active,
                self.activation == old(self).activation,
                self.pending == old(self).pending,
                self.queue == old(self).queue,
                self.previews == old(self).previews,
                self.preview_queue == old(self).preview_queue,
                self.stopping == old(self).stopping,
                self.next_job == old(self).next_job,
                self.closed_paths == old(self).closed_paths,
                self.version == old(self).version,
                self.last_snapshot == old(self).last_snapshot,
            decreases count - k,
        {
            let entry = self.selection_cache.remove(0);
            removed.push(entry);
            proof {
                assert(removed@ =~= c.take(k + 1));
                assert(self.selection_cache@ =~= c.skip(k + 1));
            }
            k = k + 1;
        }
        removed
    }

    /// Publishes a new selection of the active `document` at `revision`,
    /// unless the revision, the active document or the version changed since
    /// the caller prepared it: a new snapshot number, the next version, the
    /// earlier selection cached. Gives the snapshot number and the evicted
    /// cached selections.
    pub fn commit_selection(
        &mut self,
        document: DocumentId,
        revision: RevisionId,
        expected: u64,
        max_cached: usize,
    ) -> (r: Result<(SnapshotId, Vec<(SnapshotId, DocumentId)>), SelectionError>)
        requires
            old(self).wf(),
        ensures
            final(self).wf(),
            match selection_refusal(
                old(self).is_stopping(),
                old(self).documents(),
                old(self).active(),
                old(self).version(),
                document,
                revision,
                expected,
            ) {
                Some(e) => unchanged(*final(self), *old(self)) && r == Err::<
                    (SnapshotId, Vec<(SnapshotId, DocumentId)>),
                    SelectionError,
                >(e),
                None => if old(self).selections().0 == u64::MAX || old(self).version() == u64::MAX {
                    unchanged(*final(self), *old(self)) && (r matches Err(
                        SelectionError::Document(DocumentError::IdExhausted),
                    ))
                } else {
                    let i = choose|i: int| first_document(old(self).documents(), document, i);
                    let id = SnapshotId((old(self).selections().0 + 1) as u64);
                    let previous = match old(self).documents()[i].selection {
                        Some(s) => Some((s, document)),
                        None => None,
                    };
                    let (evicted, kept) = cache_after(old(self).selections().1, previous, max_cached);
                    &&& r matches Ok((s, removed)) && s == id && removed@ == evicted
                    &&& final(self).selections() == (id.0, kept)
                    &&& final(self).version() == old(self).version() + 1
                    &&& final(self).documents() == old(self).documents().update(
                        i,
                        EntryRecord { selection: Some(id), ..old(self).documents()[i] },
                    )
                    &&& final(self).active() == old(self).active()
                    &&& final(self).activation() == old(self).activation()
                    &&& final(self).pending() == old(self).pending()
                    &&& final(self).queue() == old(self).queue()
                    &&& final(self).previews() == old(self).previews()
                    &&& final(self).preview_queue() == old(self).preview_queue()
                    &&& final(self).is_stopping() == old(self).is_stopping()
                    &&& final(self).last_job() == old(self).last_job()
                    &&& final(self).closed() == old(self).closed()
                },
            },
    {
        let i = match self.check_selection(document, revision, expected) {
            Err(e) => {
                return Err(e);
            },
            Ok(i) => i,
        };
        proof {
            let c = choose|k: int| first_document(old(self).documents(), document, k);
            if c < i {
            } else if (i as int) < c {
                assert(old(self).documents@[i as int].document == document);
            }
        }
        if self.last_snapshot == u64::MAX || self.version == u64::MAX {
            return Err(SelectionError::Document(DocumentError::IdExhausted));
        }
        let id = SnapshotId(self.last_snapshot + 1);
        self.version = self.version + 1;
        self.last_snapshot = id.0;
        let ghost docs = self.documents@;
        let mut entry = self.documents.remove(i);
        let previous = match entry.selection {
            Some(s) => Some((s, document)),
            None => None,
        };
        entry.selection = Some(id);
        self.documents.insert(i, entry);
        proof {
            assert(self.documents@ =~= docs.update(i as int, EntryRecord { selection: Some(id), ..docs[i as int] }));
        }
        let removed = self.cache_previous(previous, max_cached);
        Ok((id, removed))
    }

    /// Clears the committed selection of the active `document` at
    /// `revision`: already clear stays as it is; otherwise the version
    /// advances and the earlier selection is cached. Gives the evicted
    /// cached selections.
    pub fn clear_selection(&mut self, document: DocumentId, revision: RevisionId, expected: u64, max_cached: usize) -> (r:
        Result<Vec<(SnapshotId, DocumentId)>, SelectionError>)
        requires
            old(self).wf(),
        ensures
            final(self).wf(),
            match selection_refusal(
                old(self).is_stopping(),
                old(self).documents(),
                old(self).active(),
                old(self).version(),
                document,
                revision,
                expected,
            ) {
                Some(e) => unchanged(*final(self), *old(self)) && r == Err::<
                    Vec<(SnapshotId, DocumentId)>,
                    SelectionError,
                >(e),
                None => {
                    let i = choose|i: int| first_document(old(self).documents(), document, i);
                    if old(self).documents()[i].selection is None {
                        unchanged(*final(self), *old(self)) && (r matches Ok(v) && v@.len() == 0)
                    } else if old(self).version() == u64::MAX {
                        unchanged(*final(self), *old(self)) && (r matches Err(
                            SelectionError::Document(DocumentError::IdExhausted),
                        ))
                    } else {
                        let previous = Some((old(self).documents()[i].selection->0, document));
                        let (evicted, kept) = cache_after(old(self).selections().1, previous, max_cached);
                        &&& r matches Ok(removed) && removed@ == evicted
                        &&& final(self).selections() == (old(self).selections().0, kept)
                        &&& final(self).version() == old(self).version() + 1
                        &&& final(self).documents() == old(self).documents().update(
                            i,
                            EntryRecord { selection: None, ..old(self).documents()[i] },
                        )
                        &&& final(self).active() == old(self).active()
                        &&& final(self).activation() == old(self).activation()
                        &&& final(self).pending() == old(self).pending()
                        &&& final(self).queue() == old(self).queue()
                        &&& final(self).previews() == old(self).previews()
                        &&& final(self).preview_queue() == old(self).preview_queue()
                        &&& final(self).is_stopping() == old(self).is_stopping()
                        &&& final(self).last_job() == old(self).last_job()
                        &&& final(self).closed() == old(self).closed()
                    }
                },
            },
    {
        let i = match self.check_selection(document, revision, expected) {
            Err(e) => {
                return Err(e);
            },
            Ok(i) => i,
        };
        proof {
            let c = choose|k: int| first_document(old(self).documents(), document, k);
            if c < i {
            } else if (i as int) < c {
                assert(old(self).documents@[i as int].document == document);
            }
        }
        let current = match self.documents[i].selection {
            None => {
                return Ok(Vec::new());
            },
            Some(s) => s,
        };
        if self.version == u64::MAX {
            return Err(SelectionError::Document(DocumentError::IdExhausted));
        }
        self.version = self.version + 1;
        let ghost docs = self.documents@;
        let mut entry = self.documents.remove(i);
        entry.selection = None;
        self.documents.insert(i, entry);
        proof {
            assert(self.documents@ =~= docs.update(i as int, EntryRecord { selection: None, ..docs[i as int] }));
        }
        let removed = self.cache_previous(Some((current, document)), max_cached);
        Ok(removed)
    }

    /// Drops the cached selections of a closed document; gives them back.
    fn retire_selections(&mut self, document: DocumentId) -> (removed: Vec<(SnapshotId, DocumentId)>)
        ensures
            removed@ == cache_of(old(self).selection_cache@, document),
            final(self).selection_cache@ == cache_without(old(self).selection_cache@, document),
            final(self).documents == old(self).documents,
            final(self).active == old(self).active,
            final(self).activation == old(self).activation,
            final(self).pending == old(self).pending,
            final(self).queue == old(self).queue,
            final(self).previews == old(self).previews,
            final(self).preview_queue == old(self).preview_queue,
            final(self).stopping == old(self).stopping,
            final(self).next_job == old(self).next_job,
            final(self).closed_paths == old(self).closed_paths,
            final(self).version == old(self).version,
            final(self).last_snapshot == old(self).last_snapshot,
    {
        let ghost c = self.selection_cache@;
        let mut kept: Vec<(SnapshotId, DocumentId)> = Vec::new();
        let mut removed: Vec<(SnapshotId, DocumentId)> = Vec::new();
        let mut i: usize = 0;
        while i < self.selection_cache.len()
            invariant
                i <= c.len(),
                self.selection_cache@ == c,
                kept@ == cache_without(c.take(i as int), document),
                removed@ == cache_of(c.take(i as int), document),
            decreases c.len() - i,
        {
            proof {
                assert(c.take(i + 1).drop_last() =~= c.take(i as int));
                assert(c.take(i + 1).last() == c[i as int]);
            }
            let entry = self.selection_cache[i];
            if entry.1.0 == document.0 {
                removed.push(entry);
            } else {
                kept.push(entry);
            }
            i = i + 1;
        }
        proof {
            assert(c.take(i as int) =~= c);
        }
        self.selection_cache = kept;
        removed
    }


    /// The published entries, in tab order.
    pub fn entries(&self) -> (e: &Vec<EntryRecord>)
        ensures
            e@ == self.documents(),
    {
        &self.documents
    }

    /// The unfinished open and reload jobs, by ascending id.
    pub fn jobs(&self) -> (j: &Vec<OpenRecord>)
        ensures
            j@ == self.pending(),
    {
        &self.pending
    }

    /// The unfinished preview jobs, by ascending id.
    pub fn preview_jobs(&self) -> (j: &Vec<PreviewRecord>)
        ensures
            j@ == self.previews(),
    {
        &self.previews
    }

    /// The active document.
    pub fn active_document(&self) -> (d: Option<DocumentId>)
        ensures
            d == self.active(),
    {
        self.active
    }

    /// Whether the service stopped admitting work.
    pub fn stopping(&self) -> (b: bool)
        ensures
            b == self.is_stopping(),
    {
        self.stopping
    }

    /// The number of open and preview jobs that hold a slot (saturated at
    /// the largest `usize`).
    pub fn pending_count(&self) -> (n: usize)
        ensures
            self.pending().len() + self.previews().len() <= usize::MAX ==> n == self.pending().len()
                + self.previews().len(),
            self.pending().len() + self.previews().len() > usize::MAX ==> n == usize::MAX,
    {
        self.pending.len().saturating_add(self.previews.len())
    }


    /// Records the layer the viewer inspects in `document` at `revision`
    /// (`None` clears it); the caller has checked that the revision has the layer.
    pub fn select_layer(&mut self, document: DocumentId, revision: RevisionId, layer: Option<LayerId>) -> (r:
        Result<(), DocumentError>)
        requires
            old(self).wf(),
        ensures
            final(self).wf(),
            if old(self).is_stopping() {
                unchanged(*final(self), *old(self)) && (r matches Err(DocumentError::ShuttingDown))
            } else if !has_document(old(self).documents(), document) {
                unchanged(*final(self), *old(self)) && r == Err::<(), DocumentError>(
                    DocumentError::NotFound(document),
                )
            } else {
                forall|k: int|
                    #![trigger first_document(old(self).documents(), document, k)]
                    first_document(old(self).documents(), document, k) ==> if old(self).documents()[k].revision
                        != revision {
                        unchanged(*final(self), *old(self)) && (r matches Err(DocumentError::StaleRevision))
                    } else {
                        &&& r is Ok
                        &&& final(self).documents() == old(self).documents().update(
                            k,
                            EntryRecord { selected_layer: layer, ..old(self).documents()[k] },
                        )
                        &&& final(self).active() == old(self).active()
                        &&& final(self).activation() == old(self).activation()
                        &&& final(self).pending() == old(self).pending()
                        &&& final(self).queue() == old(self).queue()
                        &&& final(self).previews() == old(self).previews()
                        &&& final(self).preview_queue() == old(self).preview_queue()
                        &&& final(self).is_stopping() == old(self).is_stopping()
                        &&& final(self).last_job() == old(self).last_job()
                        &&& final(self).closed() == old(self).closed()
                        &&& final(self).version() == old(self).version()
                        &&& final(self).selections() == old(self).selections()
                    }
            },
    {
        if self.stopping {
            return Err(DocumentError::ShuttingDown);
        }
        let k = match find_document(&self.documents, document) {
            None => {
                return Err(DocumentError::NotFound(document));
            },
            Some(k) => k,
        };
        proof {
            assert forall|m: int| first_document(old(self).documents(), document, m) implies m == k by {
                if m < k {
                } else if k < m {
                    assert(old(self).documents@[k as int].document == document);
                }
            }
        }
        if self.documents[k].revision.0 != revision.0 {
            return Err(DocumentError::StaleRevision);
        }
        let ghost docs = self.documents@;
        let mut entry = self.documents.remove(k);
        entry.selected_layer = layer;
        self.documents.insert(k, entry);
        proof {
            assert(self.documents@ =~= docs.update(k as int, EntryRecord { selected_layer: layer, ..docs[k as int] }));
        }
        Ok(())
    }


    /// What a cleanup of `document` would reach: its open entry and
    /// selection, the live revisions among `revisions`, the open jobs of the
    /// document or of its paths, the unresolved opens that might alias them,
    /// its preview jobs, and the distinct paths involved. Nothing at all
    /// (no entry, revision, task, job or preview) is refused.
    pub fn cleanup_impact(&self, document: DocumentId, revisions: &Vec<LiveRevision>, has_tasks: bool) -> (r:
        Result<CleanupFacts, DocumentError>)
        requires
            self.wf(),
        ensures
            ({
                let entry = if has_document(self.documents(), document) {
                    Some(self.documents()[choose|i: int| first_document(self.documents(), document, i)])
                } else {
                    None::<EntryRecord>
                };
                let open = entry is Some;
                let paths = cleanup_paths(entry, revisions@);
                let loads = cleanup_jobs(self.pending(), document, open, paths);
                let previews = preview_jobs_of(self.previews(), document);
                if !open && live_ids(revisions@).len() == 0 && !has_tasks && loads.len() == 0 && previews.len()
                    == 0 {
                    r == Err::<CleanupFacts, DocumentError>(DocumentError::NotFound(document))
                } else {
                    &&& r matches Ok(f)
                    &&& f.open_revision == match entry {
                        Some(e) => Some(e.revision),
                        None => None::<RevisionId>,
                    }
                    &&& f.selection == match entry {
                        Some(e) => e.selection,
                        None => None::<SnapshotId>,
                    }
                    &&& f.live_revisions@ == live_ids(revisions@)
                    &&& f.load_jobs@ == loads
                    &&& f.unresolved_load_jobs@ == unresolved_jobs(self.pending(), open, loads)
                    &&& f.preview_jobs@ == previews
                    &&& paths_view(f.paths@) == distinct(paths)
                }
            }),
    {
        let entry_index = find_document(&self.documents, document);
        proof {
            match entry_index {
                Some(i) => {
                    assert(first_document(self.documents@, document, i as int));
                    let c = choose|k: int| first_document(self.documents@, document, k);
                    if c < i {
                    } else if (i as int) < c {
                        assert(self.documents@[i as int].document == document);
                    }
                    assert(c == i);
                },
                None => {},
            }
        }
        let ghost entry = match entry_index {
            Some(i) => Some(self.documents@[i as int]),
            None => None::<EntryRecord>,
        };
        let open = entry_index.is_some();
        let mut live: Vec<RevisionId> = Vec::new();
        let mut all: Vec<PathKey> = Vec::new();
        let mut k: usize = 0;
        while k < revisions.len()
            invariant
                k <= revisions@.len(),
                live@ == live_ids(revisions@.take(k as int)),
                paths_view(all@) == live_paths(revisions@.take(k as int)),
            decreases revisions@.len() - k,
        {
            proof {
                assert(revisions@.take(k + 1).drop_last() =~= revisions@.take(k as int));
                assert(revisions@.take(k + 1).last() == revisions@[k as int]);
            }
            if !revisions[k].invalidated {
                live.push(revisions[k].id);
                let ghost before = all@;
                all.push(copy_path(&revisions[k].path));
                proof {
                    assert(paths_view(all@) =~= paths_view(before).push(path_view(revisions@[k as int].path)));
                }
            }
            k = k + 1;
        }
        proof {
            assert(revisions@.take(k as int) =~= revisions@);
        }
        match entry_index {
            Some(i) => {
                let ghost before = all@;
                all.push(copy_path(&self.documents[i].path));
                all.push(copy_path(&self.documents[i].request_path));
                proof {
                    assert(paths_view(all@) =~= paths_view(before).push(path_view(self.documents@[i as int].path)).push(
                        path_view(self.documents@[i as int].request_path),
                    ));
                }
            },
            None => {},
        }
        let ghost paths = cleanup_paths(entry, revisions@);
        let mut loads: Vec<OpenJobId> = Vec::new();
        let mut j: usize = 0;
        while j < self.pending.len()
            invariant
                j <= self.pending@.len(),
                paths_view(all@) == paths,
                loads@ == cleanup_jobs(self.pending@.take(j as int), document, open, paths),
            decreases self.pending@.len() - j,
        {
            proof {
                assert(self.pending@.take(j + 1).drop_last() =~= self.pending@.take(j as int));
                assert(self.pending@.take(j + 1).last() == self.pending@[j as int]);
            }
            let job = &self.pending[j];
            let hit = job.document.0 == document.0 || (open && (listed(&all, &job.path) || match &job.canonical {
                Some(c) => listed(&all, c),
                None => false,
            }));
            if hit {
                loads.push(job.id);
            }
            j = j + 1;
        }
        proof {
            assert(self.pending@.take(j as int) =~= self.pending@);
        }
        let mut unresolved: Vec<OpenJobId> = Vec::new();
        let mut j: usize = 0;
        while j < self.pending.len()
            invariant
                j <= self.pending@.len(),
                unresolved@ == unresolved_jobs(self.pending@.take(j as int), open, loads@),
            decreases self.pending@.len() - j,
        {
            proof {
                assert(self.pending@.take(j + 1).drop_last() =~= self.pending@.take(j as int));
                assert(self.pending@.take(j + 1).last() == self.pending@[j as int]);
            }
            let job = &self.pending[j];
            let candidate = open && match job.kind {
                OpenKind::Open => true,
                OpenKind::Reload => false,
            } && job.canonical.is_none();
            if candidate {
                let id = job.id;
                let mut found = false;
                let mut m: usize = 0;
                while m < loads.len()
                    invariant
                        m <= loads@.len(),
                        id == self.pending@[j as int].id,
                        found == exists|x: int| 0 <= x < m && loads@[x] == id,
                    decreases loads@.len() - m,
                {
                    if loads[m].0 == id.0 {
                        found = true;
                    }
                    m = m + 1;
                }
                if !found {
                    unresolved.push(id);
                }
            }
            j = j + 1;
        }
        proof {
            assert(self.pending@.take(j as int) =~= self.pending@);
        }
        let mut previews: Vec<PreviewJobId> = Vec::new();
        let mut j: usize = 0;
        while j < self.previews.len()
            invariant
                j <= self.previews@.len(),
                previews@ == preview_jobs_of(self.previews@.take(j as int), document),
            decreases self.previews@.len() - j,
        {
            proof {
                assert(self.previews@.take(j + 1).drop_last() =~= self.previews@.take(j as int));
                assert(self.previews@.take(j + 1).last() == self.previews@[j as int]);
            }
            if self.previews[j].key.document.0 == document.0 {
                previews.push(self.previews[j].id);
            }
            j = j + 1;
        }
        proof {
            assert(self.previews@.take(j as int) =~= self.previews@);
        }
        if !open && live.len() == 0 && !has_tasks && loads.len() == 0 && previews.len() == 0 {
            return Err(DocumentError::NotFound(document));
        }
        let mut unique: Vec<PathKey> = Vec::new();
        let mut q: usize = 0;
        while q < all.len()
            invariant
                q <= all@.len(),
                paths_view(unique@) == distinct(paths_view(all@).take(q as int)),
            decreases all@.len() - q,
        {
            proof {
                assert(paths_view(all@).take(q + 1).drop_last() =~= paths_view(all@).take(q as int));
                assert(paths_view(all@).take(q + 1).last() == path_view(all@[q as int]));
                lemma_distinct_contains(paths_view(all@).take(q as int), path_view(all@[q as int]));
            }
            if !listed(&unique, &all[q]) {
                let ghost before = unique@;
                unique.push(copy_path(&all[q]));
                proof {
                    assert(paths_view(unique@) =~= paths_view(before).push(path_view(all@[q as int])));
                }
            }
            q = q + 1;
        }
        proof {
            assert(paths_view(all@).take(q as int) =~= paths_view(all@));
        }
        let (open_revision, selection) = match entry_index {
            Some(i) => (Some(self.documents[i].revision), self.documents[i].selection),
            None => (None, None),
        };
        Ok(
            CleanupFacts {
                open_revision,
                selection,
                live_revisions: live,
                load_jobs: loads,
                unresolved_load_jobs: unresolved,
                preview_jobs: previews,
                paths: unique,
            },
        )
    }


    /// Applies a checked cleanup of `document`: its entry goes (focus moves
    /// as on close), the jobs of `facts` are cancelled and lose the
    /// activation intent, the paths of `facts` are closed to earlier jobs when
    /// the entry existed, and its previews and cached selections are dropped.
    pub fn apply_cleanup(&mut self, document: DocumentId, facts: &CleanupFacts, now: std::time::Instant) -> (r: Result<
        Cleaned,
        DocumentError,
    >)
        requires
            old(self).wf(),
        ensures
            final(self).wf(),
            old(self).active() != Some(document) ==> final(self).active() == old(self).active()
                && final(self).version() == old(self).version(),
            if old(self).is_stopping() {
                unchanged(*final(self), *old(self)) && (r matches Err(DocumentError::ShuttingDown))
            } else {
                let k = choose|k: int| first_document(old(self).documents(), document, k);
                let present = has_document(old(self).documents(), document);
                let rest = if present {
                    old(self).documents().remove(k)
                } else {
                    old(self).documents()
                };
                let next = if present {
                    focus_after_close(old(self).active(), document, rest, k)
                } else {
                    old(self).active()
                };
                if present && old(self).active() != next && old(self).version() == u64::MAX {
                    unchanged(*final(self), *old(self)) && (r matches Err(DocumentError::IdExhausted))
                } else {
                    let rule = CancelRule::Jobs(facts.load_jobs);
                    let kept = after_cancel(old(self).pending(), rule);
                    let pruned = kept_closed(old(self).closed(), kept);
                    &&& r matches Ok(c)
                    &&& present ==> (c.entry matches Some(e) && e == old(self).documents()[k])
                    &&& !present ==> c.entry is None
                    &&& c.jobs@ == dequeued_ids(old(self).pending(), rule)
                    &&& c.previews@ == preview_dequeued(old(self).previews(), Some(document))
                    &&& c.selections@ == cache_of(old(self).selections().1, document)
                    &&& final(self).documents() == rest
                    &&& final(self).active() == next
                    &&& final(self).version() == activated_version(old(self).active(), old(self).version(), next)
                    &&& final(self).activation() == match old(self).activation() {
                        Some(a) => if facts.load_jobs@.contains(a) {
                            None
                        } else {
                            Some(a)
                        },
                        None => None,
                    }
                    &&& final(self).pending() == kept
                    &&& final(self).queue() == without_ids(old(self).queue(), c.jobs@)
                    &&& final(self).closed() == if present {
                        kept_closed(
                            pruned + paths_view(facts.paths@).map_values(
                                |p: Seq<Seq<u8>>| (p, OpenJobId(old(self).last_job())),
                            ),
                            kept,
                        )
                    } else {
                        pruned
                    }
                    &&& final(self).previews() == after_preview_cancel(old(self).previews(), Some(document), now)
                    &&& final(self).preview_queue() == without_previews(old(self).preview_queue(), c.previews@)
                    &&& final(self).selections() == (
                        old(self).selections().0,
                        cache_without(old(self).selections().1, document),
                    )
                    &&& final(self).is_stopping() == old(self).is_stopping()
                    &&& final(self).last_job() == old(self).last_job()
                }
            },
    {
        if self.stopping {
            return Err(DocumentError::ShuttingDown);
        }
        let entry = match find_document(&self.documents, document) {
            None => None,
            Some(k) => {
                proof {
                    assert(first_document(old(self).documents(), document, k as int));
                    let c = choose|m: int| first_document(old(self).documents(), document, m);
                    if c < k {
                    } else if (k as int) < c {
                        assert(old(self).documents@[k as int].document == document);
                    }
                    assert(c == k);
                }
                let is_active = match self.active {
                    Some(a) => a.0 == document.0,
                    None => false,
                };
                let n = self.documents.len();
                let next = if !is_active {
                    self.active
                } else if k + 1 < n {
                    Some(self.documents[k + 1].document)
                } else if k > 0 {
                    Some(self.documents[k - 1].document)
                } else {
                    None
                };
                proof {
                    let rest = old(self).documents().remove(k as int);
                    assert(next == focus_after_close(old(self).active(), document, rest, k as int));
                }
                match self.set_active(next) {
                    Ok(()) => {},
                    Err(e) => {
                        return Err(e);
                    },
                }
                Some(self.documents.remove(k))
            },
        };
        let mut ids: Vec<OpenJobId> = Vec::new();
        let mut i: usize = 0;
        while i < facts.load_jobs.len()
            invariant
                i <= facts.load_jobs@.len(),
                ids@ == facts.load_jobs@.take(i as int),
            decreases facts.load_jobs@.len() - i,
        {
            ids.push(facts.load_jobs[i]);
            proof {
                assert(ids@ =~= facts.load_jobs@.take(i + 1));
            }
            i = i + 1;
        }
        proof {
            assert(ids@ =~= facts.load_jobs@);
        }
        let lost_intent = match self.activation {
            Some(a) => {
                let mut found = false;
                let mut m: usize = 0;
                while m < ids.len()
                    invariant
                        m <= ids@.len(),
                        found == exists|x: int| 0 <= x < m && ids@[x] == a,
                    decreases ids@.len() - m,
                {
                    if ids[m].0 == a.0 {
                        found = true;
                    }
                    m = m + 1;
                }
                found
            },
            None => false,
        };
        if lost_intent {
            self.activation = None;
        }
        let rule = CancelRule::Jobs(ids);
        let jobs = self.cancel_where(&rule);
        proof {
            lemma_after_cancel_same_rule(old(self).pending(), rule, CancelRule::Jobs(facts.load_jobs));
        }
        if entry.is_some() {
            let ghost before = *self;
            let ghost start = self.closed();
            let mut p: usize = 0;
            while p < facts.paths.len()
                invariant
                    p <= facts.paths@.len(),
                    self.documents == before.documents,
                    self.active == before.active,
                    self.activation == before.activation,
                    self.pending == before.pending,
                    self.queue == before.queue,
                    self.previews == before.previews,
                    self.preview_queue == before.preview_queue,
                    self.stopping == before.stopping,
                    self.next_job == before.next_job,
                    self.version == before.version,
                    self.last_snapshot == before.last_snapshot,
                    self.selection_cache == before.selection_cache,
                    before.next_job == old(self).next_job,
                    self.closed() == start + paths_view(facts.paths@).take(p as int).map_values(
                        |q: Seq<Seq<u8>>| (q, OpenJobId(old(self).next_job)),
                    ),
                decreases facts.paths@.len() - p,
            {
                let ghost c0 = self.closed_paths@;
                self.closed_paths.push(ClosedPath { path: copy_path(&facts.paths[p]), cutoff: OpenJobId(self.next_job) });
                proof {
                    assert(closed_view(self.closed_paths@) =~= closed_view(c0).push(
                        (path_view(facts.paths@[p as int]), OpenJobId(old(self).next_job)),
                    ));
                    assert(paths_view(facts.paths@).take(p + 1).map_values(
                        |q: Seq<Seq<u8>>| (q, OpenJobId(old(self).next_job)),
                    ) =~= paths_view(facts.paths@).take(p as int).map_values(
                        |q: Seq<Seq<u8>>| (q, OpenJobId(old(self).next_job)),
                    ).push((path_view(facts.paths@[p as int]), OpenJobId(old(self).next_job))));
                }
                p = p + 1;
            }
            proof {
                assert(paths_view(facts.paths@).take(p as int) =~= paths_view(facts.paths@));
            }
            self.prune_closed_paths();
        }
        let previews = self.invalidate_previews(Some(document), now);
        let selections = self.retire_selections(document);
        Ok(Cleaned { entry, jobs, previews, selections })
    }

    /// Keeps the closed paths that still guard a pending job.
    fn prune_closed_paths(&mut self)
        ensures
            final(self).closed() == kept_closed(old(self).closed(), old(self).pending()),
            final(self).documents == old(self).documents,
            final(self).active == old(self).active,
            final(self).activation == old(self).activation,
            final(self).pending == old(self).pending,
            final(self).queue == old(self).queue,
            final(self).previews == old(self).previews,
            final(self).preview_queue == old(self).preview_queue,
            final(self).stopping == old(self).stopping,
            final(self).next_job == old(self).next_job,
            final(self).version == old(self).version,
            final(self).last_snapshot == old(self).last_snapshot,
            final(self).selection_cache == old(self).selection_cache,
    {
        let kept = prune(&self.closed_paths, &self.pending);
        self.closed_paths = kept;
    }

    /// Cancels the open job `id`: a queued job leaves the queue and the
    /// registry, a running one is marked, anything else is refused.
    pub fn cancel(&mut self, id: OpenJobId) -> (effect: CancelEffect)
        requires
            old(self).wf(),
        ensures
            final(self).wf(),
            final(self).documents() == old(self).documents(),
            final(self).active() == old(self).active(),
            final(self).activation() == old(self).activation(),
            final(self).previews() == old(self).previews(),
            final(self).preview_queue() == old(self).preview_queue(),
            final(self).is_stopping() == old(self).is_stopping(),
            final(self).last_job() == old(self).last_job(),
            final(self).version() == old(self).version(),
            final(self).selections() == old(self).selections(),
            forall|j: int|
                #![trigger job_at(final(self).pending(), id, j)]
                job_at(final(self).pending(), id, j) ==> !accepts(final(self).pending()[j].execution),
            !has_job(old(self).pending(), id) ==> (effect == CancelEffect::Refused
                && final(self).pending() == old(self).pending() && final(self).queue() == old(self).queue()
                && final(self).closed() == old(self).closed()),
            forall|i: int|
                #![trigger job_at(old(self).pending(), id, i)]
                job_at(old(self).pending(), id, i) ==> match old(self).pending()[i].execution {
                    Execution::Queued => {
                        &&& effect == CancelEffect::Dequeued
                        &&& final(self).pending() == old(self).pending().remove(i)
                        &&& final(self).queue() == without_id(old(self).queue(), id)
                        &&& final(self).closed() == kept_closed(old(self).closed(), final(self).pending())
                    },
                    Execution::Running(at) => {
                        &&& effect == CancelEffect::Marked
                        &&& final(self).pending() == old(self).pending().update(
                            i,
                            OpenRecord { execution: Execution::Cancelling(at), ..old(self).pending()[i] },
                        )
                        &&& final(self).queue() == old(self).queue()
                        &&& final(self).closed() == old(self).closed()
                    },
                    _ => {
                        &&& effect == CancelEffect::Refused
                        &&& final(self).pending() == old(self).pending()
                        &&& final(self).queue() == old(self).queue()
                        &&& final(self).closed() == old(self).closed()
                    },
                },
    {
        let i = match find_open(&self.pending, id) {
            None => {
                return CancelEffect::Refused;
            },
            Some(i) => i,
        };
        proof {
            assert forall|j: int| job_at(old(self).pending(), id, j) implies j == i by {
                lemma_unique(old(self).pending(), id, i as int, j);
            }
        }
        match self.pending[i].execution {
            Execution::Queued => {
                let ghost before = self.pending@;
                let queue = queue_without(&self.queue, id);
                proof {
                    lemma_without_id_ascending(self.queue@, id);
                }
                self.queue = queue;
                let _job = self.pending.remove(i);
                self.prune_closed_paths();
                proof {
                    assert forall|k: int| 0 <= k < self.queue@.len() implies queued_open(
                        self.pending@,
                        #[trigger] self.queue@[k],
                    ) by {
                        let q = self.queue@[k];
                        assert(old(self).queue@.contains(q));
                        let m = choose|m: int| 0 <= m < old(self).queue@.len() && old(self).queue@[m] == q;
                        assert(queued_open(before, old(self).queue@[m]));
                        let j = choose|j: int| job_at(before, q, j) && before[j].execution is Queued;
                        lemma_without_excludes(old(self).queue@, id, k);
                        if j < i {
                            assert(job_at(self.pending@, q, j));
                        } else {
                            assert(j != i);
                            assert(job_at(self.pending@, q, j - 1));
                        }
                    }
                }
                CancelEffect::Dequeued
            },
            Execution::Running(at) => {
                let mut job = self.pending.remove(i);
                job.execution = Execution::Cancelling(at);
                self.pending.insert(i, job);
                proof {
                    assert(self.pending@ =~= old(self).pending@.update(
                        i as int,
                        OpenRecord { execution: Execution::Cancelling(at), ..old(self).pending@[i as int] },
                    ));
                    assert forall|k: int| 0 <= k < self.queue@.len() implies queued_open(
                        self.pending@,
                        #[trigger] self.queue@[k],
                    ) by {
                        let q = self.queue@[k];
                        assert(queued_open(old(self).pending@, q));
                        let j = choose|j: int| job_at(old(self).pending@, q, j) && old(self).pending@[j].execution is Queued;
                        assert(j != i);
                        assert(job_at(self.pending@, q, j));
                    }
                }
                CancelEffect::Marked
            },
            _ => CancelEffect::Refused,
        }
    }
}

} // verus!
