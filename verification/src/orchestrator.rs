//! The task record store and the operations of the orchestration layer.
//!
//! One `Orchestrator` value is the single source of truth for every tracked
//! task. The caller-facing operations (`start_task`, `stop_task`,
//! `get_task_state`, `clear_completed_tasks`, `respond_to_permission_prompt`)
//! and the runner-facing ones (`mark_running`, `request_permission`,
//! `finish_completed`, `finish_failed`) all go through it; the driver holds
//! it behind one lock and hands it the events of each task's worker.

use vstd::prelude::*;

use crate::task::is_terminal;
use crate::task::terminal;
use crate::task::CachedDecision;
use crate::task::DecisionScope;
use crate::task::OrchError;
use crate::task::PermissionRequest;
use crate::task::PermissionResponse;
use crate::task::ResourceKind;
use crate::task::Task;
use crate::task::TaskFailure;
use crate::task::TaskState;

verus! {

/// Ids of the records are pairwise distinct.
pub open spec fn ids_unique(s: Seq<Task>) -> bool {
    forall|i: int, j: int|
        #![trigger s[i], s[j]]
        0 <= i < s.len() && 0 <= j < s.len() && i != j ==> s[i].id@ != s[j].id@
}

/// Every record obeys the per-task invariant.
pub open spec fn all_wf(s: Seq<Task>) -> bool {
    forall|i: int| 0 <= i < s.len() ==> (#[trigger] s[i]).wf()
}

/// The record a successful `start_task` adds: fresh metadata, state
/// `Pending`, no result, no error, no outstanding request, no decisions.
pub open spec fn fresh_record(
    t: Task,
    id: Seq<char>,
    action_name: Seq<char>,
    action_data: Seq<char>,
    code: Seq<char>,
    now_ms: u64,
) -> bool {
    &&& t.id@ == id
    &&& t.state == TaskState::Pending
    &&& t.action_name@ == action_name
    &&& t.action_data@ == action_data
    &&& t.code matches Some(c) && c@ == code
    &&& t.return_value is None
    &&& t.error is None
    &&& t.created_at == now_ms
    &&& t.started_at is None
    &&& t.finished_at is None
    &&& t.pending_request is None
    &&& t.decisions@.len() == 0
}

/// The record after external cancellation: terminal, with the reason
/// recorded, any retained code dropped and any outstanding permission
/// request resolved away.
pub open spec fn cancelled_version(t: Task, now_ms: u64) -> Task {
    Task {
        state: TaskState::Cancelled,
        code: None,
        error: Some(TaskFailure::Cancelled),
        finished_at: Some(now_ms),
        pending_request: None,
        ..t
    }
}

/// The record once its worker picks the task up: the retained code moves out
/// to the worker.
pub open spec fn running_version(t: Task, now_ms: u64) -> Task {
    Task { state: TaskState::Running, code: None, started_at: Some(now_ms), ..t }
}

/// The record after natural completion, with the engine's final value (or its
/// absence) recorded.
pub open spec fn completed_version(t: Task, value: Option<String>, now_ms: u64) -> Task {
    Task { state: TaskState::Completed, return_value: value, finished_at: Some(now_ms), ..t }
}

/// The record after an engine-reported failure.
pub open spec fn failed_version(t: Task, failure: TaskFailure, now_ms: u64) -> Task {
    Task { state: TaskState::Failed, error: Some(failure), finished_at: Some(now_ms), ..t }
}

/// The record once a capability check raises a prompt: suspended awaiting the
/// operator, with the single outstanding request attached.
pub open spec fn prompted_version(
    t: Task,
    resource_kind: ResourceKind,
    descriptor: String,
    scope: DecisionScope,
) -> Task {
    Task {
        state: TaskState::AwaitingPermission,
        pending_request: Some(PermissionRequest { resource_kind, descriptor, scope }),
        ..t
    }
}

/// Relates a record that held an outstanding request to the record after a
/// decision is delivered: execution resumes, the request slot is cleared, and
/// a session-wide answer is remembered in the task's decision cache.
pub open spec fn responded_version_ok(pre: Task, post: Task, response: PermissionResponse) -> bool {
    &&& pre.pending_request matches Some(req) && (post == Task {
        state: TaskState::Running,
        pending_request: None,
        decisions: post.decisions,
        ..pre
    }) && post.decisions@ == (if response.spec_session_wide() {
        pre.decisions@.push(
            CachedDecision {
                resource_kind: req.resource_kind,
                descriptor: req.descriptor,
                allow: response.spec_allows(),
            },
        )
    } else {
        pre.decisions@
    })
}

/// First session-wide decision recorded for this `(resource_kind,
/// descriptor)`, if any.
pub open spec fn lookup_decision(
    ds: Seq<CachedDecision>,
    kind: ResourceKind,
    descriptor: Seq<char>,
) -> Option<bool>
    decreases ds.len(),
{
    if ds.len() <= 0 {
        None
    } else if ds[0].resource_kind == kind && ds[0].descriptor@ == descriptor {
        Some(ds[0].allow)
    } else {
        lookup_decision(ds.drop_first(), kind, descriptor)
    }
}

/// The records that survive reaping: exactly the non-terminal ones, in their
/// original order and byte for byte as they were.
pub open spec fn live_tasks(s: Seq<Task>) -> Seq<Task>
    decreases s.len(),
{
    if s.len() == 0 {
        Seq::empty()
    } else if is_terminal(s.last().state) {
        live_tasks(s.drop_last())
    } else {
        live_tasks(s.drop_last()).push(s.last())
    }
}

/// Reaping keeps only non-terminal records, each of them one of the original
/// records, and keeps the table invariant.
proof fn lemma_live_tasks_wf(s: Seq<Task>)
    requires
        ids_unique(s),
        all_wf(s),
    ensures
        forall|k: int|
            0 <= k < live_tasks(s).len() ==> s.contains(#[trigger] live_tasks(s)[k]),
        forall|k: int|
            0 <= k < live_tasks(s).len() ==> !is_terminal((#[trigger] live_tasks(s)[k]).state),
        ids_unique(live_tasks(s)),
        all_wf(live_tasks(s)),
    decreases s.len(),
{
    if s.len() > 0 {
        let prefix = s.drop_last();
        let last = s.last();
        assert forall|i: int, j: int|
            #![trigger prefix[i], prefix[j]]
            0 <= i < prefix.len() && 0 <= j < prefix.len() && i != j implies prefix[i].id@
            != prefix[j].id@ by {
            assert(prefix[i] == s[i] && prefix[j] == s[j]);
        }
        assert forall|i: int| 0 <= i < prefix.len() implies (#[trigger] prefix[i]).wf() by {
            assert(prefix[i] == s[i]);
        }
        lemma_live_tasks_wf(prefix);
        let sub = live_tasks(prefix);
        let out = live_tasks(s);
        assert forall|k: int| 0 <= k < sub.len() implies s.contains(#[trigger] sub[k]) by {
            assert(prefix.contains(sub[k]));
            let p = choose|p: int| 0 <= p < prefix.len() && prefix[p] == sub[k];
            assert(s[p] == sub[k]);
        }
        if !is_terminal(last.state) {
            assert(out == sub.push(last));
            assert(s[s.len() - 1] == last);
            assert(s.contains(last));
            assert forall|a: int, b: int|
                #![trigger out[a], out[b]]
                0 <= a < out.len() && 0 <= b < out.len() && a != b implies out[a].id@
                != out[b].id@ by {
                let lo = if a < b {
                    a
                } else {
                    b
                };
                let hi = if a < b {
                    b
                } else {
                    a
                };
                if hi < sub.len() {
                    assert(out[a] == sub[a] && out[b] == sub[b]);
                } else {
                    assert(out[hi] == last);
                    assert(out[lo] == sub[lo]);
                    assert(prefix.contains(sub[lo]));
                    let p = choose|p: int| 0 <= p < prefix.len() && prefix[p] == sub[lo];
                    assert(s[p] == sub[lo]);
                    assert(s[p].id@ != s[s.len() - 1].id@);
                }
            }
        }
    }
}

/// Replacing one record by another with the same id keeps the table invariant.
proof fn lemma_wf_update(pre: Seq<Task>, post: Seq<Task>, i: int, t: Task)
    requires
        ids_unique(pre),
        all_wf(pre),
        0 <= i < pre.len(),
        post == pre.update(i, t),
        t.wf(),
        t.id@ == pre[i].id@,
    ensures
        ids_unique(post),
        all_wf(post),
{
    assert forall|k: int| 0 <= k < post.len() implies (#[trigger] post[k]).wf() by {
        if k != i {
            assert(post[k] == pre[k]);
        }
    }
    assert forall|a: int, b: int|
        #![trigger post[a], post[b]]
        0 <= a < post.len() && 0 <= b < post.len() && a != b implies post[a].id@
        != post[b].id@ by {
        assert(pre[a].id@ != pre[b].id@);
        if a != i {
            assert(post[a] == pre[a]);
        }
        if b != i {
            assert(post[b] == pre[b]);
        }
    }
}

/// Removing one record keeps the table invariant.
proof fn lemma_wf_remove(pre: Seq<Task>, post: Seq<Task>, i: int)
    requires
        ids_unique(pre),
        all_wf(pre),
        0 <= i < pre.len(),
        post == pre.remove(i),
    ensures
        ids_unique(post),
        all_wf(post),
{
    pre.remove_ensures(i);
    assert forall|k: int| 0 <= k < post.len() implies (#[trigger] post[k]).wf() by {
        if k < i {
            assert(post[k] == pre[k]);
        } else {
            assert(post[k] == pre[k + 1]);
        }
    }
    assert forall|a: int, b: int|
        #![trigger post[a], post[b]]
        0 <= a < post.len() && 0 <= b < post.len() && a != b implies post[a].id@
        != post[b].id@ by {
        let pa = if a < i {
            a
        } else {
            a + 1
        };
        let pb = if b < i {
            b
        } else {
            b + 1
        };
        assert(post[a] == pre[pa] && post[b] == pre[pb]);
        assert(pre[pa].id@ != pre[pb].id@);
    }
}

/// How a capability check raised by a running task is answered.
#[derive(Clone, Copy, Debug, PartialEq, Eq, Structural)]
pub enum RequestOutcome {
    /// Answered from the task's decision cache; no new prompt is raised.
    Resolved(PermissionResponse),
    /// A prompt was raised; the task now awaits the operator's decision.
    Prompted,
    /// The task is already terminal (it was cancelled); the engine must treat
    /// the check as denied and unwind.
    RefusedTerminal,
}

/// What delivering a permission response did.
#[derive(Clone, Copy, Debug, PartialEq, Eq, Structural)]
pub enum RespondEffect {
    /// No request was outstanding; the late or unmatched response is ignored.
    NoOutstandingRequest,
    /// The response resolved the outstanding request and must be handed to
    /// the suspended worker.
    Delivered(PermissionResponse),
}

/// Process-wide table of task records; the single source of truth read and
/// written by every component of the orchestration layer.
pub struct Orchestrator {
    tasks: Vec<Task>,
}

impl View for Orchestrator {
    type V = Seq<Task>;

    closed spec fn view(&self) -> Seq<Task> {
        self.tasks@
    }
}

impl Orchestrator {
    /// Invariant of the whole table.
    pub open spec fn wf(self) -> bool {
        ids_unique(self@) && all_wf(self@)
    }

    /// Whether an unreaped record with this id exists.
    pub open spec fn has(self, id: Seq<char>) -> bool {
        exists|i: int| 0 <= i < self@.len() && (#[trigger] self@[i]).id@ == id
    }

    /// Position of the record with this id (meaningful when `has` holds).
    pub open spec fn idx_of(self, id: Seq<char>) -> int {
        choose|i: int| 0 <= i < self@.len() && (#[trigger] self@[i]).id@ == id
    }

    /// The record with this id (meaningful when `has` holds).
    pub open spec fn spec_get(self, id: Seq<char>) -> Task {
        self@[self.idx_of(id)]
    }

    /// An empty table.
    pub fn new() -> (r: Orchestrator)
        ensures
            r.wf(),
            r@ == Seq::<Task>::empty(),
    {
        Orchestrator { tasks: Vec::new() }
    }

    /// Every record, in creation order.
    pub fn list(&self) -> (r: &Vec<Task>)
        ensures
            r@ == self@,
    {
        &self.tasks
    }

    /// Linear scan for the record with this id.
    fn find(&self, key: &String) -> (r: Option<usize>)
        requires
            self.wf(),
        ensures
            match r {
                Some(i) => self.has(key@) && i as int == self.idx_of(key@) && i < self@.len()
                    && self@[i as int].id@ == key@,
                None => !self.has(key@),
            },
    {
        let n = self.tasks.len();
        let mut j: usize = 0;
        while j < n
            invariant
                n == self.tasks@.len(),
                j <= n,
                self.wf(),
                forall|k: int| 0 <= k < j ==> (#[trigger] self.tasks@[k]).id@ != key@,
            decreases n - j,
        {
            if self.tasks[j].id == *key {
                proof {
                    assert(self@[j as int].id@ == key@);
                    assert(self.has(key@));
                    let c = self.idx_of(key@);
                    assert(0 <= c < self@.len() && self@[c].id@ == key@);
                    if c != j as int {
                        assert(self@[c].id@ != self@[j as int].id@);
                        assert(false);
                    }
                }
                return Some(j);
            }
            j += 1;
        }
        None
    }

    /// Create a task: reject an id already present (terminal but unreaped
    /// included), otherwise append a fresh `Pending` record. A task just
    /// started is observed as `Pending` and never as awaiting permission or
    /// terminal before any execution step.
    pub fn start_task(
        &mut self,
        id: String,
        action_name: String,
        action_data: String,
        code: String,
        now_ms: u64,
    ) -> (r: Result<(), OrchError>)
        requires
            old(self).wf(),
        ensures
            final(self).wf(),
            r is Ok <==> !old(self).has(id@),
            r is Err ==> r == Err::<(), OrchError>(OrchError::DuplicateTaskId) && final(self)@
                == old(self)@,
            r is Ok ==> final(self)@.len() == old(self)@.len() + 1 && final(self)@.drop_last()
                == old(self)@ && fresh_record(
                final(self)@.last(),
                id@,
                action_name@,
                action_data@,
                code@,
                now_ms,
            ),
            r is Ok ==> final(self).has(id@) && final(self).spec_get(id@) == final(self)@.last(),
            r is Ok ==> final(self).spec_get(id@).state == TaskState::Pending,
    {
        if self.find(&id).is_some() {
            return Err(OrchError::DuplicateTaskId);
        }
        let ghost idv = id@;
        proof {
            assert(!self.has(idv));
        }
        let task = Task {
            id,
            state: TaskState::Pending,
            action_name,
            action_data,
            code: Some(code),
            return_value: None,
            error: None,
            created_at: now_ms,
            started_at: None,
            finished_at: None,
            pending_request: None,
            decisions: Vec::new(),
        };
        let ghost pre = self.tasks@;
        self.tasks.push(task);
        proof {
            assert(self@.drop_last() =~= pre);
            let n = self@.len() - 1;
            assert(self@[n].id@ == idv);
            assert forall|i: int, j: int|
                #![trigger self@[i], self@[j]]
                0 <= i < self@.len() && 0 <= j < self@.len() && i != j implies self@[i].id@
                != self@[j].id@ by {
                if i < n {
                    assert(self@[i] == pre[i]);
                    assert(pre[i].id@ != idv);
                }
                if j < n {
                    assert(self@[j] == pre[j]);
                    assert(pre[j].id@ != idv);
                }
            }
            assert(self.has(idv));
            let c = self.idx_of(idv);
            assert(0 <= c < self@.len() && self@[c].id@ == idv);
            if c != n {
                assert(self@[c].id@ != self@[n].id@);
            }
            assert(c == n);
        }
        Ok(())
    }

    /// Snapshot of one task: its state, timestamps, result or error when
    /// terminal, and the pending request while awaiting permission.
    pub fn get_task_state(&self, id: &str) -> (r: Result<&Task, OrchError>)
        requires
            self.wf(),
        ensures
            r is Ok <==> self.has(id@),
            r matches Ok(t) ==> *t == self.spec_get(id@),
            r is Err ==> r == Err::<&Task, OrchError>(OrchError::TaskNotFound),
    {
        let key = id.to_owned();
        match self.find(&key) {
            Some(i) => Ok(&self.tasks[i]),
            None => Err(OrchError::TaskNotFound),
        }
    }

    /// First session-wide decision recorded for this key, scanning in the
    /// order the decisions were taken.
    fn find_decision(ds: &Vec<CachedDecision>, kind: ResourceKind, descriptor: &String) -> (r:
        Option<bool>)
        ensures
            r == lookup_decision(ds@, kind, descriptor@),
    {
        let n = ds.len();
        let mut j: usize = 0;
        proof {
            assert(ds@.skip(0) =~= ds@);
        }
        while j < n
            invariant
                n == ds@.len(),
                j <= n,
                lookup_decision(ds@, kind, descriptor@) == lookup_decision(
                    ds@.skip(j as int),
                    kind,
                    descriptor@,
                ),
            decreases n - j,
        {
            let d = &ds[j];
            proof {
                assert(ds@.skip(j as int)[0] == ds@[j as int]);
            }
            if d.resource_kind == kind && d.descriptor == *descriptor {
                return Some(d.allow);
            }
            proof {
                assert(ds@.skip(j as int).drop_first() =~= ds@.skip(j as int + 1));
            }
            j += 1;
        }
        None
    }

    /// A running task's capability check. A key already covered by a
    /// session-wide decision is answered at once, without a new prompt and
    /// without touching the record; otherwise the single outstanding request
    /// is attached and the task suspends as `AwaitingPermission`. A check
    /// from a task already terminal (it was cancelled) is refused so the
    /// engine unwinds; a task can never hold two outstanding requests, and a
    /// check from a task that is not running is rejected as a protocol
    /// violation.
    pub fn request_permission(
        &mut self,
        id: &str,
        resource_kind: ResourceKind,
        descriptor: String,
        scope: DecisionScope,
    ) -> (r: Result<RequestOutcome, OrchError>)
        requires
            old(self).wf(),
        ensures
            final(self).wf(),
            final(self)@.len() == old(self)@.len(),
            forall|j: int|
                0 <= j < old(self)@.len() && (#[trigger] old(self)@[j]).id@ != id@ ==> final(
                    self)@[j] == old(self)@[j],
            !old(self).has(id@) ==> r == Err::<RequestOutcome, OrchError>(OrchError::TaskNotFound)
                && final(self)@ == old(self)@,
            old(self).has(id@) ==> ({
                let rec = old(self).spec_get(id@);
                &&& is_terminal(rec.state) ==> r == Ok::<RequestOutcome, OrchError>(
                    RequestOutcome::RefusedTerminal,
                ) && final(self)@ == old(self)@
                &&& rec.state == TaskState::Running ==> ({
                    let cached = lookup_decision(rec.decisions@, resource_kind, descriptor@);
                    &&& cached matches Some(a) ==> r == Ok::<RequestOutcome, OrchError>(
                        RequestOutcome::Resolved(
                            (if a {
                                PermissionResponse::AllowAlways
                            } else {
                                PermissionResponse::DenyAlways
                            }),
                        ),
                    ) && final(self)@ == old(self)@
                    &&& cached is None ==> r == Ok::<RequestOutcome, OrchError>(
                        RequestOutcome::Prompted,
                    ) && final(self)@ == old(self)@.update(
                        old(self).idx_of(id@),
                        prompted_version(rec, resource_kind, descriptor, scope),
                    )
                })
                &&& rec.state == TaskState::Pending || rec.state == TaskState::AwaitingPermission
                    ==> r == Err::<RequestOutcome, OrchError>(OrchError::InternalConsistencyError)
                    && final(self)@ == old(self)@
            }),
    {
        let key = id.to_owned();
        match self.find(&key) {
            None => Err(OrchError::TaskNotFound),
            Some(i) => {
                let st = self.tasks[i].state;
                if terminal(st) {
                    Ok(RequestOutcome::RefusedTerminal)
                } else if st == TaskState::Running {
                    match Self::find_decision(&self.tasks[i].decisions, resource_kind, &descriptor)
                    {
                        Some(a) => Ok(
                            RequestOutcome::Resolved(
                                if a {
                                    PermissionResponse::AllowAlways
                                } else {
                                    PermissionResponse::DenyAlways
                                },
                            ),
                        ),
                        None => {
                            let ghost pre = self@;
                            proof {
                                assert(pre[i as int].wf());
                            }
                            let t = &mut self.tasks[i];
                            t.state = TaskState::AwaitingPermission;
                            t.pending_request = Some(
                                PermissionRequest { resource_kind, descriptor, scope },
                            );
                            proof {
                                let v = prompted_version(
                                    pre[i as int],
                                    resource_kind,
                                    descriptor,
                                    scope,
                                );
                                assert(self@ == pre.update(i as int, v));
                                lemma_wf_update(pre, self@, i as int, v);
                            }
                            Ok(RequestOutcome::Prompted)
                        },
                    }
                } else {
                    Err(OrchError::InternalConsistencyError)
                }
            }
        }
    }

    /// Deliver the operator's decision for a task's outstanding request.
    /// Responses are matched by task identity: a response for a missing id
    /// reports `TaskNotFound`; one for a task with no outstanding request —
    /// late, repeated, or the task is already terminal — is a harmless no-op
    /// that leaves the record untouched. When a request is outstanding the
    /// slot is cleared, the task resumes as `Running`, a session-wide answer
    /// is remembered for the task's remaining lifetime, and the decision is
    /// handed back for delivery to the suspended worker.
    pub fn respond_to_permission_prompt(&mut self, id: &str, response: PermissionResponse) -> (r:
        Result<RespondEffect, OrchError>)
        requires
            old(self).wf(),
        ensures
            final(self).wf(),
            final(self)@.len() == old(self)@.len(),
            forall|j: int|
                0 <= j < old(self)@.len() && (#[trigger] old(self)@[j]).id@ != id@ ==> final(
                    self)@[j] == old(self)@[j],
            r is Ok <==> old(self).has(id@),
            r is Err ==> r == Err::<RespondEffect, OrchError>(OrchError::TaskNotFound) && final(
                self)@ == old(self)@,
            old(self).has(id@) && old(self).spec_get(id@).pending_request is None ==> r == Ok::<
                RespondEffect,
                OrchError,
            >(RespondEffect::NoOutstandingRequest) && final(self)@ == old(self)@,
            old(self).has(id@) && is_terminal(old(self).spec_get(id@).state) ==> final(self)@
                == old(self)@,
            old(self).has(id@) && old(self).spec_get(id@).pending_request is Some ==> r == Ok::<
                RespondEffect,
                OrchError,
            >(RespondEffect::Delivered(response)) && final(self).has(id@) && responded_version_ok(
                old(self).spec_get(id@),
                final(self).spec_get(id@),
                response,
            ) && final(self)@ == old(self)@.update(
                old(self).idx_of(id@),
                final(self).spec_get(id@),
            ),
    {
        let key = id.to_owned();
        match self.find(&key) {
            None => Err(OrchError::TaskNotFound),
            Some(i) => {
                if self.tasks[i].pending_request.is_none() {
                    return Ok(RespondEffect::NoOutstandingRequest);
                }
                let ghost pre = self@;
                proof {
                    assert(pre[i as int].wf());
                }
                let t = &mut self.tasks[i];
                let req = t.pending_request.take().unwrap();
                t.state = TaskState::Running;
                if response.session_wide() {
                    let allow = response.allows();
                    t.decisions.push(
                        CachedDecision {
                            resource_kind: req.resource_kind,
                            descriptor: req.descriptor,
                            allow,
                        },
                    );
                }
                proof {
                    let v = self@[i as int];
                    assert(self@ == pre.update(i as int, v));
                    assert(v.wf());
                    lemma_wf_update(pre, self@, i as int, v);
                    assert(self@[i as int].id@ == id@);
                    assert(self.has(id@));
                    let c = self.idx_of(id@);
                    assert(0 <= c < self@.len() && self@[c].id@ == id@);
                    if c != i as int {
                        assert(self@[c].id@ != self@[i as int].id@);
                        assert(false);
                    }
                    assert(responded_version_ok(pre[i as int], v, response));
                }
                Ok(RespondEffect::Delivered(response))
            }
        }
    }

    /// Best-effort cancellation. A missing task is reported; a task already
    /// terminal is left untouched and the call still succeeds, so its
    /// recorded result never changes; any other task takes the single atomic
    /// transition to `Cancelled`, resolving an outstanding permission wait
    /// away in the same step. A later completion or failure report from the
    /// task's own worker loses the race and is discarded.
    pub fn stop_task(&mut self, id: &str, now_ms: u64) -> (r: Result<(), OrchError>)
        requires
            old(self).wf(),
        ensures
            final(self).wf(),
            final(self)@.len() == old(self)@.len(),
            forall|j: int|
                0 <= j < old(self)@.len() && (#[trigger] old(self)@[j]).id@ != id@ ==> final(self)@[j] == old(self)@[j],
            r is Ok <==> old(self).has(id@),
            r is Err ==> r == Err::<(), OrchError>(OrchError::TaskNotFound) && final(self)@ == old(self)@,
            old(self).has(id@) && is_terminal(old(self).spec_get(id@).state) ==> final(self)@
                == old(self)@,
            old(self).has(id@) && !is_terminal(old(self).spec_get(id@).state) ==> final(self)@
                == old(self)@.update(
                old(self).idx_of(id@),
                cancelled_version(old(self).spec_get(id@), now_ms),
            ),
    {
        let key = id.to_owned();
        match self.find(&key) {
            None => Err(OrchError::TaskNotFound),
            Some(i) => {
                if terminal(self.tasks[i].state) {
                    return Ok(());
                }
                let ghost pre = self@;
                proof {
                    assert(pre[i as int].wf());
                }
                let t = &mut self.tasks[i];
                t.state = TaskState::Cancelled;
                t.code = None;
                t.error = Some(TaskFailure::Cancelled);
                t.finished_at = Some(now_ms);
                t.pending_request = None;
                proof {
                    let v = cancelled_version(pre[i as int], now_ms);
                    assert(self@ == pre.update(i as int, v));
                    lemma_wf_update(pre, self@, i as int, v);
                }
                Ok(())
            }
        }
    }

    /// The worker picks its task up: the retained code moves out to the
    /// worker and the task becomes `Running`. A task cancelled before it
    /// could start is refused with `TaskCancelled`, so the worker never runs
    /// it; any state other than `Pending` or `Cancelled` is a protocol
    /// violation and is rejected rather than applied.
    pub fn mark_running(&mut self, id: &str, now_ms: u64) -> (r: Result<String, OrchError>)
        requires
            old(self).wf(),
        ensures
            final(self).wf(),
            final(self)@.len() == old(self)@.len(),
            forall|j: int|
                0 <= j < old(self)@.len() && (#[trigger] old(self)@[j]).id@ != id@ ==> final(self)@[j] == old(self)@[j],
            !old(self).has(id@) ==> r == Err::<String, OrchError>(OrchError::TaskNotFound)
                && final(self)@ == old(self)@,
            old(self).has(id@) ==> ({
                let rec = old(self).spec_get(id@);
                &&& rec.state == TaskState::Pending ==> (rec.code matches Some(c) && r == Ok::<
                    String,
                    OrchError,
                >(c) && final(self)@ == old(self)@.update(
                    old(self).idx_of(id@),
                    running_version(rec, now_ms),
                ))
                &&& rec.state == TaskState::Cancelled ==> r == Err::<String, OrchError>(
                    OrchError::TaskCancelled,
                ) && final(self)@ == old(self)@
                &&& rec.state != TaskState::Pending && rec.state != TaskState::Cancelled ==> r
                    == Err::<String, OrchError>(OrchError::InternalConsistencyError) && final(self)@ == old(self)@
            }),
    {
        let key = id.to_owned();
        match self.find(&key) {
            None => Err(OrchError::TaskNotFound),
            Some(i) => {
                let st = self.tasks[i].state;
                if st == TaskState::Pending {
                    let ghost pre = self@;
                    proof {
                        assert(pre[i as int].wf());
                    }
                    let t = &mut self.tasks[i];
                    let code_opt = t.code.take();
                    t.state = TaskState::Running;
                    t.started_at = Some(now_ms);
                    proof {
                        let v = running_version(pre[i as int], now_ms);
                        assert(self@ == pre.update(i as int, v));
                        lemma_wf_update(pre, self@, i as int, v);
                    }
                    Ok(code_opt.unwrap())
                } else if st == TaskState::Cancelled {
                    Err(OrchError::TaskCancelled)
                } else {
                    Err(OrchError::InternalConsistencyError)
                }
            }
        }
    }

    /// The worker reports natural completion with the engine's final value
    /// (or its absence). If cancellation won the race to a terminal state,
    /// the report is discarded, not applied; a completion report for a task
    /// that never ran is a protocol violation. Only the named task's record
    /// changes: the value of one task can never land on another task's
    /// record.
    pub fn finish_completed(&mut self, id: &str, value: Option<String>, now_ms: u64) -> (r: Result<
        (),
        OrchError,
    >)
        requires
            old(self).wf(),
        ensures
            final(self).wf(),
            final(self)@.len() == old(self)@.len(),
            forall|j: int|
                0 <= j < old(self)@.len() && (#[trigger] old(self)@[j]).id@ != id@ ==> final(self)@[j] == old(self)@[j],
            !old(self).has(id@) ==> r == Err::<(), OrchError>(OrchError::TaskNotFound) && final(self)@ == old(self)@,
            old(self).has(id@) ==> ({
                let rec = old(self).spec_get(id@);
                &&& is_terminal(rec.state) ==> r == Ok::<(), OrchError>(()) && final(self)@ == old(self)@
                &&& rec.state == TaskState::Running ==> r == Ok::<(), OrchError>(()) && final(self)@ == old(self)@.update(
                    old(self).idx_of(id@),
                    completed_version(rec, value, now_ms),
                )
                &&& rec.state == TaskState::Pending || rec.state == TaskState::AwaitingPermission
                    ==> r == Err::<(), OrchError>(OrchError::InternalConsistencyError) && final(self)@ == old(self)@
            }),
    {
        let key = id.to_owned();
        match self.find(&key) {
            None => Err(OrchError::TaskNotFound),
            Some(i) => {
                let st = self.tasks[i].state;
                if terminal(st) {
                    Ok(())
                } else if st == TaskState::Running {
                    let ghost pre = self@;
                    proof {
                        assert(pre[i as int].wf());
                    }
                    let t = &mut self.tasks[i];
                    t.state = TaskState::Completed;
                    t.return_value = value;
                    t.finished_at = Some(now_ms);
                    proof {
                        let v = completed_version(pre[i as int], value, now_ms);
                        assert(self@ == pre.update(i as int, v));
                        lemma_wf_update(pre, self@, i as int, v);
                    }
                    Ok(())
                } else {
                    Err(OrchError::InternalConsistencyError)
                }
            }
        }
    }

    /// The worker reports an engine-level failure (the script threw, failed
    /// to load, or observed a denied capability), or the panic of its own
    /// worker converted to a failure at the worker boundary. Race and
    /// isolation behaviour are exactly as for `finish_completed`.
    pub fn finish_failed(&mut self, id: &str, failure: TaskFailure, now_ms: u64) -> (r: Result<
        (),
        OrchError,
    >)
        requires
            old(self).wf(),
        ensures
            final(self).wf(),
            final(self)@.len() == old(self)@.len(),
            forall|j: int|
                0 <= j < old(self)@.len() && (#[trigger] old(self)@[j]).id@ != id@ ==> final(self)@[j] == old(self)@[j],
            !old(self).has(id@) ==> r == Err::<(), OrchError>(OrchError::TaskNotFound) && final(self)@ == old(self)@,
            old(self).has(id@) ==> ({
                let rec = old(self).spec_get(id@);
                &&& is_terminal(rec.state) ==> r == Ok::<(), OrchError>(()) && final(self)@ == old(self)@
                &&& rec.state == TaskState::Running ==> r == Ok::<(), OrchError>(()) && final(self)@ == old(self)@.update(
                    old(self).idx_of(id@),
                    failed_version(rec, failure, now_ms),
                )
                &&& rec.state == TaskState::Pending || rec.state == TaskState::AwaitingPermission
                    ==> r == Err::<(), OrchError>(OrchError::InternalConsistencyError) && final(self)@ == old(self)@
            }),
    {
        let key = id.to_owned();
        match self.find(&key) {
            None => Err(OrchError::TaskNotFound),
            Some(i) => {
                let st = self.tasks[i].state;
                if terminal(st) {
                    Ok(())
                } else if st == TaskState::Running {
                    let ghost pre = self@;
                    proof {
                        assert(pre[i as int].wf());
                    }
                    let t = &mut self.tasks[i];
                    t.state = TaskState::Failed;
                    t.error = Some(failure);
                    t.finished_at = Some(now_ms);
                    proof {
                        let v = failed_version(pre[i as int], failure, now_ms);
                        assert(self@ == pre.update(i as int, v));
                        lemma_wf_update(pre, self@, i as int, v);
                    }
                    Ok(())
                } else {
                    Err(OrchError::InternalConsistencyError)
                }
            }
        }
    }

    /// Reap one task, but only if it is terminal: a record still pending,
    /// running or awaiting permission is never destroyed implicitly.
    /// Returns whether a record was removed.
    pub fn remove_if_terminal(&mut self, id: &str) -> (r: bool)
        requires
            old(self).wf(),
        ensures
            final(self).wf(),
            r == (old(self).has(id@) && is_terminal(old(self).spec_get(id@).state)),
            r ==> final(self)@ == old(self)@.remove(old(self).idx_of(id@)),
            !r ==> final(self)@ == old(self)@,
    {
        let key = id.to_owned();
        match self.find(&key) {
            None => false,
            Some(i) => {
                if terminal(self.tasks[i].state) {
                    let ghost pre = self@;
                    self.tasks.remove(i);
                    proof {
                        lemma_wf_remove(pre, self@, i as int);
                    }
                    true
                } else {
                    false
                }
            }
        }
    }

    /// Reap every task whose state is terminal. Exactly the terminal records
    /// are removed; every non-terminal task keeps its place in order and its
    /// record byte for byte, so no snapshot of a live task is disturbed.
    pub fn clear_completed_tasks(&mut self)
        requires
            old(self).wf(),
        ensures
            final(self).wf(),
            final(self)@ == live_tasks(old(self)@),
    {
        let ghost orig = self@;
        let mut i: usize = 0;
        proof {
            assert(orig.subrange(0, 0) =~= Seq::<Task>::empty());
            assert(live_tasks(Seq::<Task>::empty()) =~= Seq::<Task>::empty());
            assert(orig.subrange(0, orig.len() as int) =~= orig);
            assert(self@ =~= live_tasks(orig.subrange(0, 0)) + orig.subrange(
                0,
                orig.len() as int,
            ));
        }
        let ghost mut g: int = 0;
        while i < self.tasks.len()
            invariant
                0 <= g <= orig.len(),
                i as int == live_tasks(orig.subrange(0, g)).len(),
                self.tasks@ == live_tasks(orig.subrange(0, g)) + orig.subrange(
                    g,
                    orig.len() as int,
                ),
                ids_unique(orig),
                all_wf(orig),
            decreases orig.len() - g,
        {
            proof {
                assert(self.tasks@.len() == i as int + (orig.len() - g));
            }
            let ghost cur = orig[g];
            let ghost p = orig.subrange(0, g);
            proof {
                assert(self.tasks@[i as int] == orig.subrange(g, orig.len() as int)[0]);
                assert(orig.subrange(0, g + 1) =~= p.push(cur));
                assert(p.push(cur).drop_last() =~= p);
                assert(p.push(cur).last() == cur);
            }
            if terminal(self.tasks[i].state) {
                let ghost pre = self.tasks@;
                self.tasks.remove(i);
                proof {
                    assert(is_terminal(cur.state));
                    assert(live_tasks(orig.subrange(0, g + 1)) == live_tasks(p));
                    assert(self.tasks@ =~= live_tasks(orig.subrange(0, g + 1)) + orig.subrange(
                        g + 1,
                        orig.len() as int,
                    ));
                    g = g + 1;
                }
            } else {
                proof {
                    assert(!is_terminal(cur.state));
                    assert(live_tasks(orig.subrange(0, g + 1)) == live_tasks(p).push(cur));
                    assert(self.tasks@ =~= live_tasks(orig.subrange(0, g + 1)) + orig.subrange(
                        g + 1,
                        orig.len() as int,
                    ));
                    g = g + 1;
                }
                i += 1;
            }
        }
        proof {
            assert(g == orig.len());
            assert(orig.subrange(0, g) =~= orig);
            assert(orig.subrange(g, orig.len() as int) =~= Seq::<Task>::empty());
            assert(self.tasks@ =~= live_tasks(orig));
            lemma_live_tasks_wf(orig);
        }
    }
}

} // verus!
