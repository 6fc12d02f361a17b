//! Data model of the task orchestration layer: the record kept for each
//! tracked execution, its state machine, and the permission-gate vocabulary.

use vstd::prelude::*;

verus! {

/// Lifecycle state of one tracked execution.
///
/// Transitions are monotonic along
/// `Pending -> Running -> (AwaitingPermission <-> Running)* -> {Completed | Failed | Cancelled}`;
/// there is no transition out of a terminal state.
#[derive(Clone, Copy, Debug, PartialEq, Eq, Structural)]
pub enum TaskState {
    Pending,
    Running,
    AwaitingPermission,
    Completed,
    Failed,
    Cancelled,
}

/// A state from which no further transition is allowed.
pub open spec fn is_terminal(s: TaskState) -> bool {
    s == TaskState::Completed || s == TaskState::Failed || s == TaskState::Cancelled
}

/// Executable test for a terminal state.
#[verifier::when_used_as_spec(is_terminal)]
pub fn terminal(s: TaskState) -> (r: bool)
    ensures
        r == is_terminal(s),
{
    match s {
        TaskState::Completed => true,
        TaskState::Failed => true,
        TaskState::Cancelled => true,
        _ => false,
    }
}

/// The kind of sensitive capability a sandboxed script asks for.
#[derive(Clone, Copy, Debug, PartialEq, Eq, Structural)]
pub enum ResourceKind {
    File,
    Network,
    Env,
    Subprocess,
    Other,
}

/// Hint carried by a capability check: whether the decision is wanted once or
/// for the rest of the task's session.
#[derive(Clone, Copy, Debug, PartialEq, Eq, Structural)]
pub enum DecisionScope {
    Once,
    Session,
}

/// The operator's answer to a permission prompt. An `Always` answer is scoped
/// to the remaining lifetime of that one task's sandbox instance.
#[derive(Clone, Copy, Debug, PartialEq, Eq, Structural)]
pub enum PermissionResponse {
    AllowOnce,
    AllowAlways,
    DenyOnce,
    DenyAlways,
}

impl PermissionResponse {
    /// Whether the answer grants the capability.
    pub open spec fn spec_allows(self) -> bool {
        self == PermissionResponse::AllowOnce || self == PermissionResponse::AllowAlways
    }

    /// Whether the answer covers every later equivalent request from the same task.
    pub open spec fn spec_session_wide(self) -> bool {
        self == PermissionResponse::AllowAlways || self == PermissionResponse::DenyAlways
    }

    /// Executable test for a granting answer.
    #[verifier::when_used_as_spec(spec_allows)]
    pub fn allows(self) -> (r: bool)
        ensures
            r == self.spec_allows(),
    {
        self == PermissionResponse::AllowOnce || self == PermissionResponse::AllowAlways
    }

    /// Executable test for a session-wide answer.
    #[verifier::when_used_as_spec(spec_session_wide)]
    pub fn session_wide(self) -> (r: bool)
        ensures
            r == self.spec_session_wide(),
    {
        self == PermissionResponse::AllowAlways || self == PermissionResponse::DenyAlways
    }

    /// Parse an operator-supplied tag from the fixed vocabulary
    /// {"allow", "allow_always", "deny", "deny_always"}. Anything else fails
    /// to parse and is rejected before it can reach the permission gate.
    pub fn parse(tag: &str) -> (r: Result<PermissionResponse, OrchError>)
        ensures
            (r == Ok::<PermissionResponse, OrchError>(PermissionResponse::AllowOnce) <==> tag@
                == "allow"@),
            (r == Ok::<PermissionResponse, OrchError>(PermissionResponse::AllowAlways) <==> tag@
                == "allow_always"@),
            (r == Ok::<PermissionResponse, OrchError>(PermissionResponse::DenyOnce) <==> tag@
                == "deny"@),
            (r == Ok::<PermissionResponse, OrchError>(PermissionResponse::DenyAlways) <==> tag@
                == "deny_always"@),
            r is Err ==> r == Err::<PermissionResponse, OrchError>(OrchError::InvalidResponseTag),
            (r is Err <==> (tag@ != "allow"@ && tag@ != "allow_always"@ && tag@ != "deny"@ && tag@
                != "deny_always"@)),
    {
        proof {
            reveal_strlit("allow");
            reveal_strlit("allow_always");
            reveal_strlit("deny");
            reveal_strlit("deny_always");
            assert("allow"@.len() == 5);
            assert("allow_always"@.len() == 12);
            assert("deny"@.len() == 4);
            assert("deny_always"@.len() == 11);
        }
        let t = tag.to_owned();
        if t == "allow".to_owned() {
            Ok(PermissionResponse::AllowOnce)
        } else if t == "allow_always".to_owned() {
            Ok(PermissionResponse::AllowAlways)
        } else if t == "deny".to_owned() {
            Ok(PermissionResponse::DenyOnce)
        } else if t == "deny_always".to_owned() {
            Ok(PermissionResponse::DenyAlways)
        } else {
            Err(OrchError::InvalidResponseTag)
        }
    }
}

/// One outstanding capability check, kept on the record of the task that
/// raised it while that task is `AwaitingPermission`.
#[derive(Debug)]
pub struct PermissionRequest {
    pub resource_kind: ResourceKind,
    /// Human-readable target of the check, e.g. a path or a host name.
    pub descriptor: String,
    pub scope: DecisionScope,
}

/// A session-wide decision remembered for one task: later requests for the
/// same `(resource_kind, descriptor)` are answered from this entry without a
/// new prompt.
#[derive(Debug)]
pub struct CachedDecision {
    pub resource_kind: ResourceKind,
    pub descriptor: String,
    pub allow: bool,
}

/// Why a task ended without a return value.
#[derive(Debug, PartialEq, Eq)]
pub enum TaskFailure {
    /// The engine reported that the script threw or failed to compile or load.
    Script(String),
    /// A capability check was denied; the payload is the request's descriptor.
    PermissionDenied(String),
    /// The task was stopped from outside.
    Cancelled,
}

/// Errors reported synchronously by the orchestration operations.
#[derive(Clone, Copy, Debug, PartialEq, Eq, Structural)]
pub enum OrchError {
    /// A task with this id already exists and has not been reaped.
    DuplicateTaskId,
    /// No unreaped task has this id.
    TaskNotFound,
    /// The task was cancelled before the operation could apply.
    TaskCancelled,
    /// A permission response tag outside the fixed vocabulary.
    InvalidResponseTag,
    /// The data store connection is not available.
    StoreUnavailable,
    /// A state transition that the task state machine forbids was asked for.
    /// Defensive: never reported in a well-behaved run.
    InternalConsistencyError,
}

/// The record of one tracked execution.
#[derive(Debug)]
pub struct Task {
    /// Caller-supplied id, unique among records not yet reaped.
    pub id: String,
    pub state: TaskState,
    pub action_name: String,
    pub action_data: String,
    /// Source text to execute; held only until the run starts, to bound memory.
    pub code: Option<String>,
    /// Set exactly when the task completed normally and the engine produced a value.
    pub return_value: Option<String>,
    /// Set exactly when the task failed or was cancelled.
    pub error: Option<TaskFailure>,
    pub created_at: u64,
    pub started_at: Option<u64>,
    pub finished_at: Option<u64>,
    /// Present exactly while the task is `AwaitingPermission`.
    pub pending_request: Option<PermissionRequest>,
    /// Remembered session-wide answers.
    pub decisions: Vec<CachedDecision>,
}

impl Task {
    /// Structural invariant of every stored record.
    pub open spec fn wf(self) -> bool {
        &&& self.return_value is Some ==> self.state == TaskState::Completed
        &&& (self.error is Some <==> (self.state == TaskState::Failed || self.state
            == TaskState::Cancelled))
        &&& (self.pending_request is Some <==> self.state == TaskState::AwaitingPermission)
        &&& (self.code is Some <==> self.state == TaskState::Pending)
        &&& (self.finished_at is Some <==> is_terminal(self.state))
        &&& self.state == TaskState::Pending ==> self.started_at is None
        &&& (self.state == TaskState::Running || self.state == TaskState::AwaitingPermission)
            ==> self.started_at is Some
    }
}

} // verus!
