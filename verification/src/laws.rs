//! Corollaries of the orchestration contracts, stated on their own so a
//! reader sees them proved rather than left implicit.

use vstd::prelude::*;

use crate::orchestrator::Orchestrator;
use crate::task::is_terminal;
use crate::task::TaskState;

verus! {

/// A task just created is observed as `Pending`: after a successful
/// `start_task` for a fresh id (which appends exactly one fresh `Pending`
/// record), asking for that id's state can never show the task awaiting
/// permission or terminal before any execution step.
pub proof fn lemma_fresh_task_observed_pending(
    pre: Orchestrator,
    post: Orchestrator,
    id: Seq<char>,
)
    requires
        pre.wf(),
        !pre.has(id),
        post@.len() == pre@.len() + 1,
        post@.drop_last() == pre@,
        post@.last().id@ == id,
        post@.last().state == TaskState::Pending,
    ensures
        post.has(id),
        post.spec_get(id).state == TaskState::Pending,
        post.spec_get(id).state != TaskState::AwaitingPermission,
        !is_terminal(post.spec_get(id).state),
{
    let n = post@.len() - 1;
    assert(post@[n].id@ == id);
    assert(post.has(id));
    let c = post.idx_of(id);
    assert(0 <= c < post@.len() && post@[c].id@ == id);
    if c != n {
        assert(post@[c] == post@.drop_last()[c]);
        assert(pre@[c].id@ == id);
        assert(pre.has(id));
        assert(false);
    }
}

/// Result isolation: an operation that touches the record of one id alone,
/// which is the promise every mutating operation of the orchestrator makes,
/// leaves every other task's snapshot, `return_value` and `error` included,
/// exactly as it was.
pub proof fn lemma_result_isolation(
    pre: Orchestrator,
    post: Orchestrator,
    id: Seq<char>,
    other: Seq<char>,
)
    requires
        pre.wf(),
        post.wf(),
        post@.len() == pre@.len(),
        forall|j: int|
            0 <= j < pre@.len() && (#[trigger] pre@[j]).id@ != id ==> post@[j] == pre@[j],
        other != id,
        pre.has(other),
    ensures
        post.has(other),
        post.spec_get(other) == pre.spec_get(other),
        post.spec_get(other).return_value == pre.spec_get(other).return_value,
        post.spec_get(other).error == pre.spec_get(other).error,
{
    let i = pre.idx_of(other);
    assert(0 <= i < pre@.len() && pre@[i].id@ == other);
    assert(post@[i] == pre@[i]);
    assert(post.has(other));
    let c = post.idx_of(other);
    assert(0 <= c < post@.len() && post@[c].id@ == other);
    if c != i {
        assert(post@[c].id@ != post@[i].id@);
        assert(false);
    }
}

} // verus!
