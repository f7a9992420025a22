//! The selection registry behind a selection handle: session, live
//! snapshots, bounded task records and the request index. The caller holds it
//! under the document service's state lock; no source data is released here.

use vstd::prelude::*;
use vstd::string::StringSliceAdditionalSpecFns;

use crate::text::{blank, is_blank, same_text};

use super::super::error::DocumentError;
use super::super::model::DocumentId;
use super::budget::{Budget, limit};
use super::error::SelectionError;
use super::model::{
    BriefView, DesignTask, SelectionAccounting, SelectionConfig, SessionId, SnapshotBrief,
    SnapshotId, TaskId, TaskPage, TaskStatus, TaskView,
};

verus! {

/// A task record and the snapshot it still pins, if not released.
pub struct TaskEntry {
    pub record: DesignTask,
    pub snapshot: Option<SnapshotId>,
}

/// A client request id and the task it created.
pub struct TaskRequest {
    pub request_id: String,
    pub task: TaskId,
}

/// Selection state shared by the service and its handles.
pub struct SelectionHandle {
    pub(super) stopping: bool,
    pub(super) config: SelectionConfig,
    pub(super) budget: Budget,
    pub(super) session_id: SessionId,
    pub(super) next_task: u64,
    pub(super) snapshots: Vec<SnapshotBrief>,
    pub(super) tasks: Vec<TaskEntry>,
    pub(super) requests: Vec<TaskRequest>,
}

/// The first task that `key` created, if any.
pub open spec fn request_target(reqs: Seq<(Seq<char>, TaskId)>, key: Seq<char>) -> Option<TaskId>
    decreases reqs.len(),
{
    if reqs.len() == 0 {
        None
    } else if reqs[0].0 == key {
        Some(reqs[0].1)
    } else {
        request_target(reqs.drop_first(), key)
    }
}

/// Every recorded request names an existing task.
pub open spec fn requests_resolve(tasks: Seq<TaskView>, reqs: Seq<(Seq<char>, TaskId)>) -> bool {
    forall|k: int| 0 <= k < reqs.len() ==> has_task(tasks, (#[trigger] reqs[k]).1)
}

/// Ids that strictly increase along the sequence.
pub open spec fn ascending_tasks(tasks: Seq<TaskView>) -> bool {
    forall|i: int, j: int| 0 <= i < j < tasks.len() ==> (#[trigger] tasks[i]).1.0 < (
    #[trigger] tasks[j]).1.0
}

/// Snapshot ids that strictly increase along the sequence.
pub open spec fn ascending_snapshots(live: Seq<BriefView>) -> bool {
    forall|i: int, j: int| 0 <= i < j < live.len() ==> (#[trigger] live[i]).0.0 < (
    #[trigger] live[j]).0.0
}

impl SelectionHandle {
    /// Whether the service is shutting down.
    pub closed spec fn is_stopping(&self) -> bool {
        self.stopping
    }

    /// The selection quotas.
    pub closed spec fn settings(&self) -> SelectionConfig {
        self.config
    }

    /// The session of this core instance.
    pub closed spec fn session(&self) -> Seq<char> {
        self.session_id@
    }

    /// The last task id handed out.
    pub closed spec fn last_task(&self) -> u64 {
        self.next_task
    }

    /// The live snapshots that ids may still resolve to, ascending by id.
    pub closed spec fn live(&self) -> Seq<BriefView> {
        self.snapshots@.map_values(|b: SnapshotBrief| b@)
    }

    /// The task records, ascending by id.
    pub closed spec fn task_views(&self) -> Seq<TaskView> {
        self.tasks@.map_values(|t: TaskEntry| t.record@)
    }

    /// The snapshot each task still pins.
    pub closed spec fn pins(&self) -> Seq<Option<SnapshotId>> {
        self.tasks@.map_values(|t: TaskEntry| t.snapshot)
    }

    /// The request index: request id and created task, in creation order.
    pub closed spec fn request_views(&self) -> Seq<(Seq<char>, TaskId)> {
        self.requests@.map_values(|q: TaskRequest| (q.request_id@, q.task))
    }

    /// The snapshot ledger.
    pub closed spec fn ledger(&self) -> SelectionAccounting {
        self.budget@
    }

    /// Registry invariant: ascending ids below the counters, and a ledger within its quotas.
    pub closed spec fn wf(&self) -> bool {
        &&& ascending_tasks(self.task_views())
        &&& ascending_snapshots(self.live())
        &&& forall|i: int|
            0 <= i < self.task_views().len() ==> 1 <= (#[trigger] self.task_views()[i]).1.0
                <= self.next_task
        &&& self.budget.wf()
        &&& self.budget.settings() == self.config
        &&& requests_resolve(self.task_views(), self.request_views())
    }

    /// Two registry states that agree on everything callers can observe.
    pub open spec fn same_state(&self, other: &SelectionHandle) -> bool {
        &&& self.is_stopping() == other.is_stopping()
        &&& self.settings() == other.settings()
        &&& self.session() == other.session()
        &&& self.last_task() == other.last_task()
        &&& self.live() == other.live()
        &&& self.task_views() == other.task_views()
        &&& self.pins() == other.pins()
        &&& self.request_views() == other.request_views()
        &&& self.ledger() == other.ledger()
    }

    /// The invariant depends only on what callers can observe.
    proof fn lemma_wf_frame(&self, other: &SelectionHandle)
        requires
            self.wf(),
            self.task_views() == other.task_views(),
            self.request_views() == other.request_views(),
            self.live() == other.live(),
            self.next_task == other.next_task,
            self.budget == other.budget,
            self.config == other.config,
        ensures
            other.wf(),
    {
    }

    /// A fresh registry for a new session.
    pub fn new(config: SelectionConfig, session_id: SessionId) -> (h: SelectionHandle)
        ensures
            h.wf(),
            !h.is_stopping(),
            h.settings() == config,
            h.session() == session_id@,
            h.last_task() == 0,
            h.live().len() == 0,
            h.task_views().len() == 0,
            h.request_views().len() == 0,
            h.ledger() == (SelectionAccounting { live_snapshots: 0, scope_bytes: 0 }),
    {
        let h = SelectionHandle {
            stopping: false,
            config,
            budget: Budget::new(config),
            session_id,
            next_task: 0,
            snapshots: Vec::new(),
            tasks: Vec::new(),
            requests: Vec::new(),
        };
        proof {
            assert(h.live() =~= Seq::<BriefView>::empty());
            assert(h.task_views() =~= Seq::<TaskView>::empty());
            assert(h.request_views() =~= Seq::<(Seq<char>, TaskId)>::empty());
        }
        h
    }

    /// The snapshot ledger right now; shared references are counted once.
    pub fn selection_resources(&self) -> (a: SelectionAccounting)
        ensures
            a == self.ledger(),
    {
        self.budget.usage()
    }

    /// Refuses new work once the service shuts down.
    pub fn ensure_running(&self) -> (r: Result<(), SelectionError>)
        ensures
            r is Ok <==> !self.is_stopping(),
            r matches Err(e) ==> e == SelectionError::Document(DocumentError::ShuttingDown),
    {
        if self.stopping {
            Err(SelectionError::Document(DocumentError::ShuttingDown))
        } else {
            Ok(())
        }
    }

    /// Stops admission for good.
    pub fn stop(&mut self)
        ensures
            final(self).is_stopping(),
            old(self).wf() ==> final(self).wf(),
            final(self).settings() == old(self).settings(),
            final(self).session() == old(self).session(),
            final(self).last_task() == old(self).last_task(),
            final(self).live() == old(self).live(),
            final(self).task_views() == old(self).task_views(),
            final(self).pins() == old(self).pins(),
            final(self).request_views() == old(self).request_views(),
            final(self).ledger() == old(self).ledger(),
    {
        self.stopping = true;
        proof {
            assert(self.task_views() =~= old(self).task_views());
            assert(self.request_views() =~= old(self).request_views());
            assert(self.live() =~= old(self).live());
            if old(self).wf() {
                old(self).lemma_wf_frame(self);
            }
        }
    }

    /// Ids of another session never resolve here.
    pub fn check_session(&self, session: &SessionId) -> (r: Result<(), SelectionError>)
        ensures
            r is Ok <==> session@ == self.session(),
            r matches Err(e) ==> e == SelectionError::ForeignSession,
    {
        if *session != self.session_id {
            return Err(SelectionError::ForeignSession);
        }
        Ok(())
    }
}


impl SelectionHandle {
    /// The live snapshot with `id`, if its scope is still referenced.
    pub fn snapshot(&self, id: SnapshotId) -> (r: Result<SnapshotBrief, SelectionError>)
        requires
            self.wf(),
        ensures
            match r {
                Ok(b) => exists|i: int|
                    0 <= i < self.live().len() && #[trigger] self.live()[i] == b@ && b@.0 == id,
                Err(e) => e == SelectionError::SnapshotExpired && forall|i: int|
                    0 <= i < self.live().len() ==> (#[trigger] self.live()[i]).0 != id,
            },
    {
        let mut i: usize = 0;
        while i < self.snapshots.len()
            invariant
                i <= self.snapshots@.len(),
                forall|j: int| 0 <= j < i ==> (#[trigger] self.live()[j]).0 != id,
            decreases self.snapshots@.len() - i,
        {
            if self.snapshots[i].snapshot_id == id {
                let b = self.snapshots[i].duplicate();
                assert(self.live()[i as int] == b@);
                return Ok(b);
            }
            i = i + 1;
        }
        Err(SelectionError::SnapshotExpired)
    }

    /// Makes a committed snapshot resolvable by its id; ids are handed out in
    /// increasing order.
    pub fn register_snapshot(&mut self, brief: SnapshotBrief)
        requires
            old(self).wf(),
            forall|i: int| 0 <= i < old(self).live().len() ==> (#[trigger] old(self).live()[i]).0.0
                < brief.snapshot_id.0,
        ensures
            final(self).wf(),
            final(self).live() == old(self).live().push(brief@),
            final(self).is_stopping() == old(self).is_stopping(),
            final(self).settings() == old(self).settings(),
            final(self).session() == old(self).session(),
            final(self).last_task() == old(self).last_task(),
            final(self).task_views() == old(self).task_views(),
            final(self).pins() == old(self).pins(),
            final(self).request_views() == old(self).request_views(),
            final(self).ledger() == old(self).ledger(),
    {
        self.snapshots.push(brief);
        proof {
            assert(self.live() =~= old(self).live().push(brief@));
            assert(self.task_views() =~= old(self).task_views());
            assert(self.request_views() =~= old(self).request_views());

            assert forall|a: int, b: int| 0 <= a < b < self.live().len() implies (
            #[trigger] self.live()[a]).0.0 < (#[trigger] self.live()[b]).0.0 by {
                if b == self.live().len() - 1 {
                    assert(self.live()[a] == old(self).live()[a]);
                } else {
                    assert(self.live()[a] == old(self).live()[a]);
                    assert(self.live()[b] == old(self).live()[b]);
                }
            }
        }
    }

    /// Forgets a snapshot whose last reference was dropped; its id no longer resolves.
    pub fn expire_snapshot(&mut self, id: SnapshotId)
        requires
            old(self).wf(),
        ensures
            final(self).wf(),
            final(self).live() == without_snapshot(old(self).live(), id),
            final(self).is_stopping() == old(self).is_stopping(),
            final(self).settings() == old(self).settings(),
            final(self).session() == old(self).session(),
            final(self).last_task() == old(self).last_task(),
            final(self).task_views() == old(self).task_views(),
            final(self).pins() == old(self).pins(),
            final(self).request_views() == old(self).request_views(),
            final(self).ledger() == old(self).ledger(),
    {
        let mut kept: Vec<SnapshotBrief> = Vec::new();
        let mut i: usize = 0;
        while i < self.snapshots.len()
            invariant
                i <= self.snapshots@.len(),
                self.snapshots@ == old(self).snapshots@,
                kept@.map_values(|b: SnapshotBrief| b@) == without_snapshot(
                    self.live().take(i as int),
                    id,
                ),
            decreases self.snapshots@.len() - i,
        {
            proof {
                assert(self.live().take(i + 1).drop_last() =~= self.live().take(i as int));
            }
            if self.snapshots[i].snapshot_id != id {
                let b = self.snapshots[i].duplicate();
                kept.push(b);
            }
            proof {
                assert(kept@.map_values(|b: SnapshotBrief| b@) =~= without_snapshot(
                    self.live().take(i + 1),
                    id,
                ));
            }
            i = i + 1;
        }
        proof {
            assert(self.live().take(i as int) =~= self.live());
        }
        self.snapshots = kept;
        proof {
            assert(self.live() =~= without_snapshot(old(self).live(), id));
            lemma_without_snapshot_ascending(old(self).live(), id);
            assert(self.task_views() =~= old(self).task_views());
            assert(self.request_views() =~= old(self).request_views());

        }
    }
}

/// The live snapshots other than `id`, in order.
pub open spec fn without_snapshot(live: Seq<BriefView>, id: SnapshotId) -> Seq<BriefView>
    decreases live.len(),
{
    if live.len() == 0 {
        live
    } else if live.last().0 == id {
        without_snapshot(live.drop_last(), id)
    } else {
        without_snapshot(live.drop_last(), id).push(live.last())
    }
}

/// Removing snapshots keeps the rest ascending, and every survivor was live.
proof fn lemma_without_snapshot_ascending(live: Seq<BriefView>, id: SnapshotId)
    requires
        ascending_snapshots(live),
    ensures
        ascending_snapshots(without_snapshot(live, id)),
        forall|k: int|
            0 <= k < without_snapshot(live, id).len() ==> exists|j: int|
                0 <= j < live.len() && live[j] == #[trigger] without_snapshot(live, id)[k],
    decreases live.len(),
{
    if live.len() > 0 {
        let rest = live.drop_last();
        assert(ascending_snapshots(rest)) by {
            assert forall|a: int, b: int| 0 <= a < b < rest.len() implies (#[trigger] rest[a]).0.0
                < (#[trigger] rest[b]).0.0 by {
                assert(rest[a] == live[a] && rest[b] == live[b]);
            }
        }
        lemma_without_snapshot_ascending(rest, id);
        let w = without_snapshot(rest, id);
        assert forall|k: int| 0 <= k < w.len() implies (#[trigger] w[k]).0.0 < live.last().0.0 by {
            let j = choose|j: int| 0 <= j < rest.len() && rest[j] == w[k];
            assert(live[j] == rest[j]);
            assert(live[live.len() - 1] == live.last());
        }
        if live.last().0 != id {
            let r = w.push(live.last());
            assert forall|k: int| 0 <= k < r.len() implies exists|j: int|
                0 <= j < live.len() && live[j] == #[trigger] r[k] by {
                if k < w.len() {
                    let j = choose|j: int| 0 <= j < rest.len() && rest[j] == w[k];
                    assert(live[j] == r[k]);
                } else {
                    assert(live[live.len() - 1] == r[k]);
                }
            }
        } else {
            assert forall|k: int| 0 <= k < w.len() implies exists|j: int|
                0 <= j < live.len() && live[j] == #[trigger] w[k] by {
                let j = choose|j: int| 0 <= j < rest.len() && rest[j] == w[k];
                assert(live[j] == w[k]);
            }
        }
    }
}



/// Rejection of an empty or oversized request id or task name.
pub const BAD_TASK_INPUT: &'static str = "请求 ID 或任务名称为空／超长";

/// Name of the task-record quota in limit errors.
pub const TASK_RECORDS: &'static str = "设计任务记录";

/// Rejection of a page size outside 1–32.
pub const BAD_PAGE_SIZE: &'static str = "任务页条数应为 1–32";

/// A request id of 1–128 bytes and a name of 1–256 bytes, neither all whitespace.
pub open spec fn task_input_ok(request_id: &str, name: &str) -> bool {
    &&& !blank(request_id@)
    &&& request_id.spec_bytes().len() <= 128
    &&& !blank(name@)
    &&& name.spec_bytes().len() <= 256
}

/// Whether some record has the id.
pub open spec fn has_task(tasks: Seq<TaskView>, id: TaskId) -> bool {
    exists|i: int| 0 <= i < tasks.len() && (#[trigger] tasks[i]).1 == id
}

/// The id number that a page starts after (0 when the page starts at the first record).
pub open spec fn after_number(after: Option<TaskId>) -> u64 {
    match after {
        Some(a) => a.0,
        None => 0,
    }
}

/// The number of records whose id is not after `after` (all records are after `None`).
pub open spec fn page_start(tasks: Seq<TaskView>, after: Option<TaskId>, p: int) -> bool {
    &&& 0 <= p <= tasks.len()
    &&& forall|i: int| 0 <= i < p ==> (after matches Some(a) && (#[trigger] tasks[i]).1.0 <= a.0)
    &&& forall|i: int| p <= i < tasks.len() ==> after is None || (#[trigger] tasks[i]).1.0 > after_number(after)
}

impl SelectionHandle {
    /// Binds a snapshot to a task under a client request id. The same request
    /// id with the same snapshot and name returns the original record, also
    /// once released; with other arguments it conflicts. Names may repeat.
    ///
    /// Nothing is created, and no request is recorded, when the session is
    /// foreign, the snapshot expired, it has no visible target, or the records
    /// are full; a full registry is never relieved by dropping dedup records.
    pub fn create_task(
        &mut self,
        session: &SessionId,
        request_id: &str,
        snapshot_id: SnapshotId,
        name: &str,
        created_at: std::time::SystemTime,
    ) -> (r: Result<DesignTask, SelectionError>)
        requires
            old(self).wf(),
        ensures
            final(self).wf(),
            if !task_input_ok(request_id, name) {
                final(self).same_state(old(self)) && (r matches Err(SelectionError::InvalidInput(m))
                    && m@ == BAD_TASK_INPUT@)
            } else if old(self).is_stopping() {
                final(self).same_state(old(self)) && (r matches Err(
                    SelectionError::Document(DocumentError::ShuttingDown),
                ))
            } else if session@ != old(self).session() {
                final(self).same_state(old(self)) && (r matches Err(SelectionError::ForeignSession))
            } else if request_target(old(self).request_views(), request_id@) is Some {
                &&& final(self).same_state(old(self))
                &&& exists|i: int|
                    {
                        &&& 0 <= i < old(self).task_views().len()
                        &&& (#[trigger] old(self).task_views()[i]).1 == request_target(
                            old(self).request_views(),
                            request_id@,
                        )->0
                        &&& if old(self).task_views()[i].2 != snapshot_id || old(
                            self,
                        ).task_views()[i].3 != name@ {
                            r matches Err(SelectionError::RequestConflict)
                        } else {
                            r matches Ok(t) && t@ == old(self).task_views()[i]
                        }
                    }
            } else if old(self).task_views().len() >= old(self).settings().max_task_records {
                final(self).same_state(old(self)) && (r matches Err(
                    SelectionError::Document(DocumentError::ResourceLimit { resource, limit }),
                ) && resource@ == TASK_RECORDS@ && limit == old(
                    self,
                ).settings().max_task_records as u64)
            } else if forall|i: int|
                0 <= i < old(self).live().len() ==> (#[trigger] old(self).live()[i]).0
                    != snapshot_id {
                final(self).same_state(old(self)) && (r matches Err(SelectionError::SnapshotExpired))
            } else {
                exists|i: int|
                    {
                        &&& 0 <= i < old(self).live().len()
                        &&& (#[trigger] old(self).live()[i]).0 == snapshot_id
                        &&& if old(self).live()[i].4 == 0 {
                            final(self).same_state(old(self)) && (r matches Err(
                                SelectionError::EmptyTargets,
                            ))
                        } else if old(self).last_task() == u64::MAX {
                            final(self).same_state(old(self)) && (r matches Err(
                                SelectionError::Document(DocumentError::IdExhausted),
                            ))
                        } else {
                            &&& r matches Ok(t)
                            &&& t@ == (
                                old(self).live()[i],
                                TaskId((old(self).last_task() + 1) as u64),
                                snapshot_id,
                                name@,
                                created_at,
                                TaskStatus::Active,
                            )
                            &&& final(self).task_views() == old(self).task_views().push(t@)
                            &&& final(self).pins() == old(self).pins().push(Some(snapshot_id))
                            &&& final(self).request_views() == old(self).request_views().push(
                                (request_id@, t.id),
                            )
                            &&& final(self).last_task() == old(self).last_task() + 1
                            &&& final(self).is_stopping() == old(self).is_stopping()
                            &&& final(self).settings() == old(self).settings()
                            &&& final(self).session() == old(self).session()
                            &&& final(self).live() == old(self).live()
                            &&& final(self).ledger() == old(self).ledger()
                        }
                    }
            },
    {
        if is_blank(request_id) || request_id.as_bytes().len() > 128 || is_blank(name)
            || name.as_bytes().len() > 256 {
            return Err(SelectionError::InvalidInput(BAD_TASK_INPUT));
        }
        if let Err(e) = self.ensure_running() {
            return Err(e);
        }
        if let Err(e) = self.check_session(session) {
            return Err(e);
        }
        assert(self.request_views().skip(0) =~= self.request_views());
        let mut k: usize = 0;
        while k < self.requests.len()
            invariant
                k <= self.requests@.len(),
                self.wf(),
                self.same_state(old(self)),
                !old(self).is_stopping(),
                session@ == old(self).session(),
                task_input_ok(request_id, name),
                request_target(self.request_views(), request_id@) == request_target(
                    self.request_views().skip(k as int),
                    request_id@,
                ),
            decreases self.requests@.len() - k,
        {
            proof {
                assert(self.request_views().skip(k as int).drop_first() =~= self.request_views().skip(
                    k + 1,
                ));
                assert(self.request_views().skip(k as int)[0] == self.request_views()[k as int]);
            }
            if same_text(self.requests[k].request_id.as_str(), request_id) {
                let target = self.requests[k].task;
                proof {
                    assert(self.request_views()[k as int] == (
                        self.requests@[k as int].request_id@,
                        target,
                    ));
                    assert(has_task(self.task_views(), self.request_views()[k as int].1));
                }
                return self.existing_request(target, snapshot_id, name);
            }
            k = k + 1;
        }
        proof {
            assert(self.request_views().skip(k as int).len() == 0);
        }
        if self.tasks.len() >= self.config.max_task_records {
            return Err(limit(TASK_RECORDS, self.config.max_task_records as u64));
        }
        let brief = match self.snapshot(snapshot_id) {
            Ok(b) => b,
            Err(e) => {
                return Err(e);
            },
        };
        if brief.target_count == 0 {
            return Err(SelectionError::EmptyTargets);
        }
        if self.next_task == u64::MAX {
            return Err(SelectionError::Document(DocumentError::IdExhausted));
        }
        let id = TaskId(self.next_task + 1);
        let record = DesignTask {
            scope: brief,
            id,
            snapshot_id,
            name: name.to_owned(),
            created_at,
            status: TaskStatus::Active,
        };
        let result = record.duplicate();
        self.next_task = id.0;
        self.tasks.push(TaskEntry { record, snapshot: Some(snapshot_id) });
        self.requests.push(TaskRequest { request_id: request_id.to_owned(), task: id });
        proof {
            assert(self.task_views() =~= old(self).task_views().push(result@));
            assert(self.pins() =~= old(self).pins().push(Some(snapshot_id)));
            assert(self.request_views() =~= old(self).request_views().push((request_id@, id)));
            let n = old(self).task_views().len();
            assert(self.task_views()[n as int] == result@);
            assert forall|k: int|
                0 <= k < self.request_views().len() implies has_task(
                self.task_views(),
                (#[trigger] self.request_views()[k]).1,
            ) by {
                if k < old(self).request_views().len() {
                    assert(self.request_views()[k] == old(self).request_views()[k]);
                    assert(has_task(old(self).task_views(), old(self).request_views()[k].1));
                    let i = choose|i: int|
                        0 <= i < old(self).task_views().len() && (#[trigger] old(
                            self,
                        ).task_views()[i]).1 == old(self).request_views()[k].1;
                    assert(self.task_views()[i] == old(self).task_views()[i]);
                } else {
                    assert(self.task_views()[n as int].1 == self.request_views()[k].1);
                }
            }
            assert forall|a: int, b: int|
                0 <= a < b < self.task_views().len() implies (#[trigger] self.task_views()[a]).1.0
                < (#[trigger] self.task_views()[b]).1.0 by {
                if b < n {
                    assert(self.task_views()[a] == old(self).task_views()[a]);
                    assert(self.task_views()[b] == old(self).task_views()[b]);
                } else {
                    assert(self.task_views()[a] == old(self).task_views()[a]);
                }
            }
            assert forall|a: int| 0 <= a < self.task_views().len() implies 1 <= (
            #[trigger] self.task_views()[a]).1.0 <= self.next_task by {
                if a < n {
                    assert(self.task_views()[a] == old(self).task_views()[a]);
                }
            }
        }
        Ok(result)
    }

    /// The answer to a repeated request: the original record when snapshot and
    /// name match, a conflict otherwise.
    fn existing_request(&self, target: TaskId, snapshot_id: SnapshotId, name: &str) -> (r: Result<
        DesignTask,
        SelectionError,
    >)
        requires
            self.wf(),
            has_task(self.task_views(), target),
        ensures
            exists|i: int|
                {
                    &&& 0 <= i < self.task_views().len()
                    &&& (#[trigger] self.task_views()[i]).1 == target
                    &&& if self.task_views()[i].2 != snapshot_id || self.task_views()[i].3
                        != name@ {
                        r matches Err(SelectionError::RequestConflict)
                    } else {
                        r matches Ok(t) && t@ == self.task_views()[i]
                    }
                },
    {
        let i = self.position(target);
        let task = &self.tasks[i].record;
        assert(self.task_views()[i as int] == task@);
        if task.snapshot_id != snapshot_id || !same_text(task.name.as_str(), name) {
            return Err(SelectionError::RequestConflict);
        }
        Ok(task.duplicate())
    }

    /// Where the record with `id` stands.
    fn position(&self, id: TaskId) -> (i: usize)
        requires
            has_task(self.task_views(), id),
        ensures
            i < self.task_views().len(),
            self.task_views()[i as int].1 == id,
    {
        let mut i: usize = 0;
        while i < self.tasks.len()
            invariant
                i <= self.tasks@.len(),
                has_task(self.task_views(), id),
                forall|j: int| 0 <= j < i ==> (#[trigger] self.task_views()[j]).1 != id,
            decreases self.tasks@.len() - i,
        {
            if self.tasks[i].record.id == id {
                assert(self.task_views()[i as int].1 == id);
                return i;
            }
            i = i + 1;
        }
        proof {
            let j = choose|j: int| 0 <= j < self.task_views().len() && (
            #[trigger] self.task_views()[j]).1 == id;
            assert(false);
        }
        0
    }

    /// Finds the record with `id`, if any.
    fn find(&self, id: TaskId) -> (r: Option<usize>)
        ensures
            match r {
                Some(i) => i < self.task_views().len() && self.task_views()[i as int].1 == id,
                None => !has_task(self.task_views(), id),
            },
    {
        let mut i: usize = 0;
        while i < self.tasks.len()
            invariant
                i <= self.tasks@.len(),
                forall|j: int| 0 <= j < i ==> (#[trigger] self.task_views()[j]).1 != id,
            decreases self.tasks@.len() - i,
        {
            if self.tasks[i].record.id == id {
                assert(self.task_views()[i as int].1 == id);
                return Some(i);
            }
            i = i + 1;
        }
        None
    }

    /// A page of 1–32 records in ascending id order after the record `after`,
    /// which must exist in this session.
    pub fn list_tasks(&self, session: &SessionId, after: Option<TaskId>, limit: u32) -> (r: Result<
        TaskPage,
        SelectionError,
    >)
        requires
            self.wf(),
        ensures
            if !(1 <= limit <= 32) {
                r matches Err(SelectionError::InvalidInput(m)) && m@ == BAD_PAGE_SIZE@
            } else if self.is_stopping() {
                r matches Err(SelectionError::Document(DocumentError::ShuttingDown))
            } else if session@ != self.session() {
                r matches Err(SelectionError::ForeignSession)
            } else if after matches Some(a) && !has_task(self.task_views(), a) {
                r matches Err(SelectionError::TaskNotFound)
            } else {
                exists|p: int|
                    {
                        &&& #[trigger] page_start(self.task_views(), after, p)
                        &&& r matches Ok(page)
                        &&& {
                            let end = if p + limit < self.task_views().len() {
                                p + limit
                            } else {
                                self.task_views().len() as int
                            };
                            &&& page.tasks@.map_values(|t: DesignTask| t@)
                                == self.task_views().subrange(p, end)
                            &&& page.next_after == if end < self.task_views().len() {
                                Some(self.task_views()[end - 1].1)
                            } else {
                                None::<TaskId>
                            }
                            &&& page.total == self.task_views().len()
                            &&& page.capacity == self.settings().max_task_records
                        }
                    }
            },
    {
        if !(1 <= limit && limit <= 32) {
            return Err(SelectionError::InvalidInput(BAD_PAGE_SIZE));
        }
        if let Err(e) = self.ensure_running() {
            return Err(e);
        }
        if let Err(e) = self.check_session(session) {
            return Err(e);
        }
        if let Some(a) = after {
            if self.find(a).is_none() {
                return Err(SelectionError::TaskNotFound);
            }
        }
        let n = self.tasks.len();
        let mut p: usize = 0;
        while p < n && self.not_after(p, after)
            invariant
                n == self.task_views().len(),
                p <= n,
                after is None ==> p == 0,
                forall|i: int|
                    0 <= i < p ==> (after matches Some(a) && (#[trigger] self.task_views()[i]).1.0
                        <= a.0),
            decreases n - p,
        {
            assert(self.task_views()[p as int] == self.tasks@[p as int].record@);
            p = p + 1;
        }
        proof {
            if after is Some && p < n {
                assert(self.task_views()[p as int].1.0 > after_number(after));
                assert forall|i: int| p <= i < n implies (#[trigger] self.task_views()[i]).1.0
                    > after_number(after) by {
                    if i > p {
                        assert(self.task_views()[p as int].1.0 < self.task_views()[i].1.0);
                    }
                }
            }
            assert(page_start(self.task_views(), after, p as int));
        }
        let end: usize = if (limit as usize) < n - p {
            p + limit as usize
        } else {
            n
        };
        let mut records: Vec<DesignTask> = Vec::new();
        let mut i: usize = p;
        while i < end
            invariant
                p <= i <= end <= n,
                n == self.task_views().len(),
                records@.map_values(|t: DesignTask| t@) == self.task_views().subrange(
                    p as int,
                    i as int,
                ),
            decreases end - i,
        {
            let t = self.tasks[i].record.duplicate();
            let ghost before = records@;
            records.push(t);
            proof {
                assert(self.task_views()[i as int] == self.tasks@[i as int].record@);
                assert(records@ =~= before.push(t));
                assert(records@.map_values(|t: DesignTask| t@) =~= before.map_values(
                    |t: DesignTask| t@,
                ).push(t@));
                assert(records@.map_values(|t: DesignTask| t@) =~= self.task_views().subrange(
                    p as int,
                    i + 1,
                ));
            }
            i = i + 1;
        }
        let next_after = if end < n {
            assert(self.task_views()[end - 1] == self.tasks@[end - 1].record@);
            Some(self.tasks[end - 1].record.id)
        } else {
            None
        };
        Ok(TaskPage { tasks: records, next_after, total: n, capacity: self.config.max_task_records })
    }

    /// Whether the record at `p` comes no later than `after`.
    fn not_after(&self, p: usize, after: Option<TaskId>) -> (b: bool)
        requires
            p < self.task_views().len(),
        ensures
            b == (after matches Some(a) && self.task_views()[p as int].1.0 <= a.0),
    {
        assert(self.task_views()[p as int] == self.tasks@[p as int].record@);
        match after {
            Some(a) => self.tasks[p].record.id.0 <= a.0,
            None => false,
        }
    }

    /// A small task record, final ones included; reading it starts no design read.
    pub fn design_task(&self, session: &SessionId, id: TaskId) -> (r: Result<
        DesignTask,
        SelectionError,
    >)
        requires
            self.wf(),
        ensures
            if self.is_stopping() {
                r matches Err(SelectionError::Document(DocumentError::ShuttingDown))
            } else if session@ != self.session() {
                r matches Err(SelectionError::ForeignSession)
            } else if !has_task(self.task_views(), id) {
                r matches Err(SelectionError::TaskNotFound)
            } else {
                exists|i: int|
                    0 <= i < self.task_views().len() && (#[trigger] self.task_views()[i]).1 == id
                        && (r matches Ok(t) && t@ == self.task_views()[i])
            },
    {
        if let Err(e) = self.ensure_running() {
            return Err(e);
        }
        if let Err(e) = self.check_session(session) {
            return Err(e);
        }
        match self.find(id) {
            Some(i) => {
                assert(self.task_views()[i as int] == self.tasks@[i as int].record@);
                Ok(self.tasks[i].record.duplicate())
            },
            None => Err(SelectionError::TaskNotFound),
        }
    }

    /// The snapshot that a task still pins; a released or invalidated task
    /// accepts no new read, and the error says which of the two it is.
    pub fn task_snapshot(&self, session: &SessionId, id: TaskId) -> (r: Result<
        SnapshotId,
        SelectionError,
    >)
        requires
            self.wf(),
        ensures
            if self.is_stopping() {
                r matches Err(SelectionError::Document(DocumentError::ShuttingDown))
            } else if session@ != self.session() {
                r matches Err(SelectionError::ForeignSession)
            } else if !has_task(self.task_views(), id) {
                r matches Err(SelectionError::TaskNotFound)
            } else {
                exists|i: int|
                    0 <= i < self.task_views().len() && (#[trigger] self.task_views()[i]).1 == id
                        && match self.pins()[i] {
                        Some(s) => r == Ok::<SnapshotId, SelectionError>(s),
                        None => if self.task_views()[i].5 == TaskStatus::Invalidated {
                            r matches Err(SelectionError::TaskInvalidated)
                        } else {
                            r matches Err(SelectionError::TaskReleased)
                        },
                    }
            },
    {
        if let Err(e) = self.ensure_running() {
            return Err(e);
        }
        if let Err(e) = self.check_session(session) {
            return Err(e);
        }
        match self.find(id) {
            Some(i) => {
                assert(self.pins()[i as int] == self.tasks@[i as int].snapshot);
                match self.tasks[i].snapshot {
                    Some(s) => Ok(s),
                    None => match self.tasks[i].record.status {
                        TaskStatus::Invalidated => Err(SelectionError::TaskInvalidated),
                        _ => Err(SelectionError::TaskReleased),
                    },
                }
            },
            None => Err(SelectionError::TaskNotFound),
        }
    }

    /// The active tasks of `document`, which a cleanup of it reaches.
    pub fn cleanup_tasks(&self, document: DocumentId) -> (v: Vec<DesignTask>)
        ensures
            v@.map_values(|t: DesignTask| t@) == active_tasks_of(self.task_views(), document),
    {
        let mut v: Vec<DesignTask> = Vec::new();
        let mut i: usize = 0;
        while i < self.tasks.len()
            invariant
                i <= self.tasks@.len(),
                v@.map_values(|t: DesignTask| t@) == active_tasks_of(self.task_views().take(i as int), document),
            decreases self.tasks@.len() - i,
        {
            proof {
                assert(self.task_views().take(i + 1).drop_last() =~= self.task_views().take(i as int));
                assert(self.task_views().take(i + 1).last() == self.tasks@[i as int].record@);
            }
            let record = &self.tasks[i].record;
            let active = match record.status {
                TaskStatus::Active => true,
                _ => false,
            };
            if record.scope.document_id.0 == document.0 && active {
                let ghost before = v@;
                v.push(record.duplicate());
                proof {
                    assert(v@.map_values(|t: DesignTask| t@) =~= before.map_values(|t: DesignTask| t@).push(
                        self.tasks@[i as int].record@,
                    ));
                }
            }
            i = i + 1;
        }
        proof {
            assert(self.task_views().take(i as int) =~= self.task_views());
        }
        v
    }

    /// Cleans up `document`: its active tasks turn `Invalidated` and stop
    /// pinning their snapshots, and its snapshots no longer resolve. Gives
    /// back the unpinned snapshots.
    pub fn invalidate_document(&mut self, document: DocumentId) -> (unpinned: Vec<SnapshotId>)
        requires
            old(self).wf(),
        ensures
            final(self).wf(),
            unpinned@ == reached_pins(old(self).task_views(), old(self).pins(), document),
            final(self).task_views() == old(self).task_views().map_values(
                |t: TaskView|
                    if reached(t, document) {
                        invalidated(t)
                    } else {
                        t
                    },
            ),
            final(self).pins().len() == old(self).pins().len(),
            forall|i: int|
                0 <= i < old(self).pins().len() ==> #[trigger] final(self).pins()[i] == if reached(
                    old(self).task_views()[i],
                    document,
                ) {
                    None
                } else {
                    old(self).pins()[i]
                },
            final(self).live() == live_without(old(self).live(), document),
            final(self).request_views() == old(self).request_views(),
            final(self).last_task() == old(self).last_task(),
            final(self).is_stopping() == old(self).is_stopping(),
            final(self).settings() == old(self).settings(),
            final(self).session() == old(self).session(),
            final(self).ledger() == old(self).ledger(),
    {
        let ghost views = old(self).task_views();
        let ghost pins0 = old(self).pins();
        let mut unpinned: Vec<SnapshotId> = Vec::new();
        let mut i: usize = 0;
        while i < self.tasks.len()
            invariant
                i <= self.tasks@.len(),
                self.tasks@.len() == views.len(),
                views == old(self).task_views(),
                pins0 == old(self).pins(),
                forall|j: int|
                    0 <= j < i ==> (#[trigger] self.tasks@[j]).record@ == if reached(views[j], document) {
                        invalidated(views[j])
                    } else {
                        views[j]
                    } && self.tasks@[j].snapshot == if reached(views[j], document) {
                        None
                    } else {
                        pins0[j]
                    },
                forall|j: int| i <= j < views.len() ==> #[trigger] self.tasks@[j] == old(self).tasks@[j],
                unpinned@ == reached_pins(views.take(i as int), pins0.take(i as int), document),
                self.snapshots == old(self).snapshots,
                self.requests == old(self).requests,
                self.next_task == old(self).next_task,
                self.stopping == old(self).stopping,
                self.config == old(self).config,
                self.session_id == old(self).session_id,
                self.budget == old(self).budget,
            decreases views.len() - i,
        {
            proof {
                assert(views.take(i + 1).drop_last() =~= views.take(i as int));
                assert(pins0.take(i + 1).drop_last() =~= pins0.take(i as int));
                assert(views.take(i + 1).last() == views[i as int]);
                assert(pins0.take(i + 1).last() == pins0[i as int]);
                assert(views[i as int] == self.tasks@[i as int].record@);
                assert(pins0[i as int] == self.tasks@[i as int].snapshot);
            }
            let active = match self.tasks[i].record.status {
                TaskStatus::Active => true,
                _ => false,
            };
            let ghost before = self.tasks@;
            if self.tasks[i].record.scope.document_id.0 == document.0 && active {
                match self.tasks[i].snapshot {
                    Some(id) => {
                        unpinned.push(id);
                    },
                    None => {},
                }
                let mut record = self.tasks[i].record.duplicate();
                record.status = TaskStatus::Invalidated;
                self.tasks.set(i, TaskEntry { record, snapshot: None });
                proof {
                    assert(self.tasks@[i as int].record@ == invalidated(views[i as int]));
                }
            }
            proof {
                assert forall|j: int| 0 <= j < i implies self.tasks@[j] == before[j] by {}
            }
            i = i + 1;
        }
        proof {
            assert(views.take(i as int) =~= views);
            assert(pins0.take(i as int) =~= pins0);
        }
        let ghost live0 = self.live();
        let mut kept: Vec<SnapshotBrief> = Vec::new();
        let mut k: usize = 0;
        while k < self.snapshots.len()
            invariant
                k <= self.snapshots@.len(),
                live0 == self.snapshots@.map_values(|b: SnapshotBrief| b@),
                kept@.map_values(|b: SnapshotBrief| b@) == live_without(live0.take(k as int), document),
            decreases self.snapshots@.len() - k,
        {
            proof {
                assert(live0.take(k + 1).drop_last() =~= live0.take(k as int));
                assert(live0.take(k + 1).last() == self.snapshots@[k as int]@);
            }
            if self.snapshots[k].document_id.0 != document.0 {
                let ghost before = kept@;
                kept.push(self.snapshots[k].duplicate());
                proof {
                    assert(kept@.map_values(|b: SnapshotBrief| b@) =~= before.map_values(|b: SnapshotBrief| b@).push(
                        self.snapshots@[k as int]@,
                    ));
                }
            }
            k = k + 1;
        }
        proof {
            assert(live0.take(k as int) =~= live0);
            lemma_live_without(live0, document);
        }
        self.snapshots = kept;
        proof {
            assert(self.task_views() =~= views.map_values(
                |t: TaskView|
                    if reached(t, document) {
                        invalidated(t)
                    } else {
                        t
                    },
            )) by {
                assert forall|j: int| 0 <= j < views.len() implies self.task_views()[j] == (if reached(views[j], document) {
                    invalidated(views[j])
                } else {
                    views[j]
                }) by {
                    assert(self.task_views()[j] == self.tasks@[j].record@);
                }
            }
            assert forall|j: int| 0 <= j < pins0.len() implies self.pins()[j] == (if reached(views[j], document) {
                None
            } else {
                pins0[j]
            }) by {
                assert(self.pins()[j] == self.tasks@[j].snapshot);
            }
            assert forall|a: int, b: int|
                0 <= a < b < self.task_views().len() implies (#[trigger] self.task_views()[a]).1.0 < (
                #[trigger] self.task_views()[b]).1.0 by {
                assert(self.task_views()[a].1 == views[a].1);
                assert(self.task_views()[b].1 == views[b].1);
            }
            assert forall|a: int| 0 <= a < self.task_views().len() implies 1 <= (
            #[trigger] self.task_views()[a]).1.0 <= self.next_task by {
                assert(self.task_views()[a].1 == views[a].1);
            }
            assert(self.request_views() =~= old(self).request_views());
            assert forall|q: int|
                0 <= q < self.request_views().len() implies has_task(
                self.task_views(),
                (#[trigger] self.request_views()[q]).1,
            ) by {
                assert(has_task(views, old(self).request_views()[q].1));
                let j = choose|j: int| 0 <= j < views.len() && (#[trigger] views[j]).1 == old(self).request_views()[q].1;
                assert(self.task_views()[j].1 == views[j].1);
            }
        }
        unpinned
    }

    /// After shutdown: every task record, request and snapshot lookup goes;
    /// gives back the snapshots the tasks still pinned.
    pub fn drain_references(&mut self) -> (unpinned: Vec<SnapshotId>)
        requires
            old(self).wf(),
        ensures
            final(self).wf(),
            unpinned@ == pinned(old(self).pins()),
            final(self).task_views().len() == 0,
            final(self).request_views().len() == 0,
            final(self).live().len() == 0,
            final(self).last_task() == old(self).last_task(),
            final(self).is_stopping() == old(self).is_stopping(),
            final(self).settings() == old(self).settings(),
            final(self).session() == old(self).session(),
            final(self).ledger() == old(self).ledger(),
    {
        let ghost pins0 = self.pins();
        let mut unpinned: Vec<SnapshotId> = Vec::new();
        let mut i: usize = 0;
        while i < self.tasks.len()
            invariant
                i <= self.tasks@.len(),
                pins0 == self.pins(),
                unpinned@ == pinned(pins0.take(i as int)),
            decreases self.tasks@.len() - i,
        {
            proof {
                assert(pins0.take(i + 1).drop_last() =~= pins0.take(i as int));
                assert(pins0.take(i + 1).last() == self.tasks@[i as int].snapshot);
            }
            match self.tasks[i].snapshot {
                Some(id) => {
                    unpinned.push(id);
                },
                None => {},
            }
            i = i + 1;
        }
        proof {
            assert(pins0.take(i as int) =~= pins0);
        }
        self.tasks = Vec::new();
        self.requests = Vec::new();
        self.snapshots = Vec::new();
        proof {
            assert(self.task_views() =~= Seq::<TaskView>::empty());
            assert(self.request_views() =~= Seq::<(Seq<char>, TaskId)>::empty());
            assert(self.live() =~= Seq::<BriefView>::empty());
        }
        unpinned
    }

    /// Releases a task, idempotently: an active record turns `Released` and
    /// stops pinning its snapshot, a terminal record (released or invalidated)
    /// stays as it is; an unknown task is an error.
    pub fn release_task(&mut self, session: &SessionId, id: TaskId) -> (r: Result<
        DesignTask,
        SelectionError,
    >)
        requires
            old(self).wf(),
        ensures
            final(self).wf(),
            if old(self).is_stopping() {
                final(self).same_state(old(self)) && (r matches Err(
                    SelectionError::Document(DocumentError::ShuttingDown),
                ))
            } else if session@ != old(self).session() {
                final(self).same_state(old(self)) && (r matches Err(SelectionError::ForeignSession))
            } else if !has_task(old(self).task_views(), id) {
                final(self).same_state(old(self)) && (r matches Err(SelectionError::TaskNotFound))
            } else {
                exists|i: int|
                    {
                        &&& 0 <= i < old(self).task_views().len()
                        &&& (#[trigger] old(self).task_views()[i]).1 == id
                        &&& r matches Ok(t)
                        &&& t@ == released(old(self).task_views()[i])
                        &&& final(self).task_views() == old(self).task_views().update(i, t@)
                        &&& final(self).pins() == old(self).pins().update(i, None)
                        &&& final(self).request_views() == old(self).request_views()
                        &&& final(self).last_task() == old(self).last_task()
                        &&& final(self).is_stopping() == old(self).is_stopping()
                        &&& final(self).settings() == old(self).settings()
                        &&& final(self).session() == old(self).session()
                        &&& final(self).live() == old(self).live()
                        &&& final(self).ledger() == old(self).ledger()
                    }
            },
    {
        if let Err(e) = self.ensure_running() {
            return Err(e);
        }
        if let Err(e) = self.check_session(session) {
            return Err(e);
        }
        match self.find(id) {
            Some(i) => {
                let mut entry_record = self.tasks[i].record.duplicate();
                if let TaskStatus::Active = entry_record.status {
                    entry_record.status = TaskStatus::Released;
                }
                let result = entry_record.duplicate();
                self.tasks.set(i, TaskEntry { record: entry_record, snapshot: None });
                proof {
                    assert(self.task_views() =~= old(self).task_views().update(i as int, result@));
                    assert(self.pins() =~= old(self).pins().update(i as int, None));
                    assert(self.request_views() =~= old(self).request_views());
                    assert(self.live() =~= old(self).live());
                    assert forall|a: int, b: int|
                        0 <= a < b < self.task_views().len() implies (
                        #[trigger] self.task_views()[a]).1.0 < (
                        #[trigger] self.task_views()[b]).1.0 by {
                        assert(self.task_views()[a].1 == old(self).task_views()[a].1);
                        assert(self.task_views()[b].1 == old(self).task_views()[b].1);
                    }
                    assert forall|a: int| 0 <= a < self.task_views().len() implies 1 <= (
                    #[trigger] self.task_views()[a]).1.0 <= self.next_task by {
                        assert(self.task_views()[a].1 == old(self).task_views()[a].1);
                    }
                    assert forall|k: int|
                        0 <= k < self.request_views().len() implies has_task(
                        self.task_views(),
                        (#[trigger] self.request_views()[k]).1,
                    ) by {
                        assert(has_task(old(self).task_views(), old(self).request_views()[k].1));
                        let j = choose|j: int|
                            0 <= j < old(self).task_views().len() && (#[trigger] old(
                                self,
                            ).task_views()[j]).1 == old(self).request_views()[k].1;
                        assert(self.task_views()[j].1 == old(self).task_views()[j].1);
                    }
                }
                Ok(result)
            },
            None => Err(SelectionError::TaskNotFound),
        }
    }
}


/// A record after its document was cleaned up: same scope, ids, name and
/// time, status `Invalidated`.
pub open spec fn invalidated(t: TaskView) -> TaskView {
    (t.0, t.1, t.2, t.3, t.4, TaskStatus::Invalidated)
}

/// Whether a cleanup of `document` reaches the task: an active task of it.
pub open spec fn reached(t: TaskView, document: DocumentId) -> bool {
    t.0.1 == document && t.5 == TaskStatus::Active
}

/// The active tasks of `document`, in order.
pub open spec fn active_tasks_of(tasks: Seq<TaskView>, document: DocumentId) -> Seq<TaskView>
    decreases tasks.len(),
{
    if tasks.len() == 0 {
        tasks
    } else if reached(tasks.last(), document) {
        active_tasks_of(tasks.drop_last(), document).push(tasks.last())
    } else {
        active_tasks_of(tasks.drop_last(), document)
    }
}

/// The snapshots the reached tasks pinned, in order.
pub open spec fn reached_pins(tasks: Seq<TaskView>, pins: Seq<Option<SnapshotId>>, document: DocumentId) -> Seq<
    SnapshotId,
>
    decreases tasks.len(),
{
    if tasks.len() == 0 || pins.len() != tasks.len() {
        Seq::empty()
    } else if reached(tasks.last(), document) && pins.last() is Some {
        reached_pins(tasks.drop_last(), pins.drop_last(), document).push(pins.last()->0)
    } else {
        reached_pins(tasks.drop_last(), pins.drop_last(), document)
    }
}

/// The live snapshots of other documents.
pub open spec fn live_without(live: Seq<BriefView>, document: DocumentId) -> Seq<BriefView>
    decreases live.len(),
{
    if live.len() == 0 {
        live
    } else if live.last().1 == document {
        live_without(live.drop_last(), document)
    } else {
        live_without(live.drop_last(), document).push(live.last())
    }
}

/// The snapshots still pinned, in order.
pub open spec fn pinned(pins: Seq<Option<SnapshotId>>) -> Seq<SnapshotId>
    decreases pins.len(),
{
    if pins.len() == 0 {
        Seq::empty()
    } else if pins.last() is Some {
        pinned(pins.drop_last()).push(pins.last()->0)
    } else {
        pinned(pins.drop_last())
    }
}

/// Keeping the snapshots of other documents keeps ids ascending.
proof fn lemma_live_without(live: Seq<BriefView>, document: DocumentId)
    requires
        ascending_snapshots(live),
    ensures
        ascending_snapshots(live_without(live, document)),
        forall|k: int|
            0 <= k < live_without(live, document).len() ==> live.contains(#[trigger] live_without(live, document)[k]),
    decreases live.len(),
{
    if live.len() > 0 {
        let d = live.drop_last();
        assert(ascending_snapshots(d)) by {
            assert forall|a: int, b: int| 0 <= a < b < d.len() implies (#[trigger] d[a]).0.0 < (#[trigger] d[b]).0.0 by {
                assert(live[a] == d[a] && live[b] == d[b]);
            }
        }
        lemma_live_without(d, document);
        let w = live_without(live, document);
        let wd = live_without(d, document);
        assert forall|k: int| 0 <= k < w.len() implies live.contains(#[trigger] w[k]) by {
            if k < wd.len() {
                assert(w[k] == wd[k]);
                let m = choose|m: int| 0 <= m < d.len() && d[m] == wd[k];
                assert(live[m] == d[m]);
            } else {
                assert(w[k] == live[live.len() - 1]);
            }
        }
        assert forall|a: int, b: int| 0 <= a < b < w.len() implies (#[trigger] w[a]).0.0 < (#[trigger] w[b]).0.0 by {
            if b < wd.len() {
                assert(w[a] == wd[a] && w[b] == wd[b]);
            } else {
                assert(w[a] == wd[a]);
                let m = choose|m: int| 0 <= m < d.len() && d[m] == wd[a];
                assert(live[m] == d[m]);
            }
        }
    }
}

/// A record after release: an active one keeps its scope, ids, name and time
/// and turns `Released`; a terminal one is kept as it is.
pub open spec fn released(t: TaskView) -> TaskView {
    if t.5 == TaskStatus::Active {
        (t.0, t.1, t.2, t.3, t.4, TaskStatus::Released)
    } else {
        t
    }
}

/// Following `next_after` pages through every task record once, in id
/// order: the first page starts at the first record, a cursor fixes where its
/// page starts, and the page after one that ends at `end` starts at `end`.
pub proof fn task_pages_tile(h: &SelectionHandle, after: Option<TaskId>, p: int)
    requires
        h.wf(),
        page_start(h.task_views(), after, p),
    ensures
        page_start(h.task_views(), None, 0),
        forall|q: int| page_start(h.task_views(), after, q) ==> q == p,
        forall|end: int|
            0 < end <= h.task_views().len() ==> #[trigger] page_start(
                h.task_views(),
                Some(h.task_views()[end - 1].1),
                end,
            ),
{
    let t = h.task_views();
    assert forall|q: int| page_start(t, after, q) implies q == p by {
        if q < p {
            assert(t[q].1.0 <= after_number(after));
        } else if p < q {
            assert(t[p].1.0 <= after_number(after));
        }
    }
    assert forall|end: int| 0 < end <= t.len() implies #[trigger] page_start(t, Some(t[end - 1].1), end) by {
        assert forall|i: int| 0 <= i < end implies (#[trigger] t[i]).1.0 <= t[end - 1].1.0 by {
            if i < end - 1 {
                assert(t[i].1.0 < t[end - 1].1.0);
            }
        }
        assert forall|i: int| end <= i < t.len() implies (#[trigger] t[i]).1.0 > t[end - 1].1.0 by {
            assert(t[end - 1].1.0 < t[i].1.0);
        }
    }
}

/// Once a request id created a task, that request id resolves to it: a retry
/// with the same request id finds the record instead of creating another.
pub proof fn request_resolves_after_creation(
    reqs: Seq<(Seq<char>, TaskId)>,
    key: Seq<char>,
    id: TaskId,
)
    requires
        request_target(reqs, key) is None,
    ensures
        request_target(reqs.push((key, id)), key) == Some(id),
    decreases reqs.len(),
{
    if reqs.len() == 0 {
        assert(reqs.push((key, id))[0] == (key, id));
    } else {
        assert(reqs.push((key, id)).drop_first() =~= reqs.drop_first().push((key, id)));
        assert(reqs.push((key, id))[0] == reqs[0]);
        request_resolves_after_creation(reqs.drop_first(), key, id);
    }
}

/// Releasing is idempotent: releasing a released record changes nothing more.
/// It keeps the record's identity, and it never overwrites the terminal state
/// that a cleanup gave a task.
pub proof fn release_is_idempotent(t: TaskView)
    ensures
        released(released(t)) == released(t),
        released(t).1 == t.1 && released(t).2 == t.2 && released(t).3 == t.3,
        released(t).5 != TaskStatus::Active,
        t.5 != TaskStatus::Invalidated ==> released(t).5 == TaskStatus::Released,
        t.5 == TaskStatus::Invalidated ==> released(t) == t,
        released(invalidated(t)).5 == TaskStatus::Invalidated,
{
}

} // verus!
