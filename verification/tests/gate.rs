//! Permission-gate behaviour: the response vocabulary, prompt handling, the
//! per-task decision cache, and late or unmatched responses.

use powblocs::DecisionScope;
use powblocs::OrchError;
use powblocs::Orchestrator;
use powblocs::PermissionResponse;
use powblocs::RequestOutcome;
use powblocs::ResourceKind;
use powblocs::RespondEffect;
use powblocs::TaskState;

fn running_task(orch: &mut Orchestrator, id: &str) {
    orch.start_task(
        id.to_string(),
        "action".to_string(),
        "{}".to_string(),
        "<code>".to_string(),
        0,
    )
    .unwrap();
    orch.mark_running(id, 1).unwrap();
}

#[test]
fn parse_accepts_the_fixed_vocabulary() {
    assert_eq!(
        PermissionResponse::parse("allow").unwrap(),
        PermissionResponse::AllowOnce
    );
    assert_eq!(
        PermissionResponse::parse("allow_always").unwrap(),
        PermissionResponse::AllowAlways
    );
    assert_eq!(
        PermissionResponse::parse("deny").unwrap(),
        PermissionResponse::DenyOnce
    );
    assert_eq!(
        PermissionResponse::parse("deny_always").unwrap(),
        PermissionResponse::DenyAlways
    );
}

#[test]
fn parse_rejects_unknown_tags() {
    for tag in ["", "Allow", "allow ", "yes", "deny-always", "allowalways"] {
        assert_eq!(
            PermissionResponse::parse(tag).unwrap_err(),
            OrchError::InvalidResponseTag
        );
    }
}

#[test]
fn respond_without_outstanding_request_is_harmless() {
    let mut orch = Orchestrator::new();
    running_task(&mut orch, "t");
    let effect = orch
        .respond_to_permission_prompt("t", PermissionResponse::AllowOnce)
        .unwrap();
    assert_eq!(effect, RespondEffect::NoOutstandingRequest);
    let snap = orch.get_task_state("t").unwrap();
    assert_eq!(snap.state, TaskState::Running);
    assert!(snap.pending_request.is_none());
}

#[test]
fn respond_to_missing_task_reports_not_found() {
    let mut orch = Orchestrator::new();
    let r = orch.respond_to_permission_prompt("nobody", PermissionResponse::DenyOnce);
    assert_eq!(r.unwrap_err(), OrchError::TaskNotFound);
}

#[test]
fn repeated_response_is_ignored() {
    let mut orch = Orchestrator::new();
    running_task(&mut orch, "t");
    orch.request_permission("t", ResourceKind::Network, "example.com".to_string(), DecisionScope::Once)
        .unwrap();
    let first = orch
        .respond_to_permission_prompt("t", PermissionResponse::AllowOnce)
        .unwrap();
    assert_eq!(first, RespondEffect::Delivered(PermissionResponse::AllowOnce));
    let second = orch
        .respond_to_permission_prompt("t", PermissionResponse::DenyAlways)
        .unwrap();
    assert_eq!(second, RespondEffect::NoOutstandingRequest);
    assert_eq!(orch.get_task_state("t").unwrap().state, TaskState::Running);
}

#[test]
fn allow_once_is_not_cached() {
    let mut orch = Orchestrator::new();
    running_task(&mut orch, "t");
    orch.request_permission("t", ResourceKind::File, "/tmp/a".to_string(), DecisionScope::Once)
        .unwrap();
    orch.respond_to_permission_prompt("t", PermissionResponse::AllowOnce)
        .unwrap();
    // The same request prompts again: a one-shot answer covers one check.
    let again = orch
        .request_permission("t", ResourceKind::File, "/tmp/a".to_string(), DecisionScope::Once)
        .unwrap();
    assert_eq!(again, RequestOutcome::Prompted);
}

#[test]
fn allow_always_resolves_later_equivalent_requests() {
    let mut orch = Orchestrator::new();
    running_task(&mut orch, "t");
    let first = orch
        .request_permission("t", ResourceKind::File, "/tmp/a".to_string(), DecisionScope::Session)
        .unwrap();
    assert_eq!(first, RequestOutcome::Prompted);
    orch.respond_to_permission_prompt("t", PermissionResponse::AllowAlways)
        .unwrap();

    // Same key: answered from the cache, no new prompt, still running.
    let again = orch
        .request_permission("t", ResourceKind::File, "/tmp/a".to_string(), DecisionScope::Once)
        .unwrap();
    assert_eq!(again, RequestOutcome::Resolved(PermissionResponse::AllowAlways));
    assert_eq!(orch.get_task_state("t").unwrap().state, TaskState::Running);

    // A different descriptor or kind still prompts.
    let other = orch
        .request_permission("t", ResourceKind::File, "/tmp/b".to_string(), DecisionScope::Once)
        .unwrap();
    assert_eq!(other, RequestOutcome::Prompted);
    orch.respond_to_permission_prompt("t", PermissionResponse::DenyOnce)
        .unwrap();
    let other_kind = orch
        .request_permission("t", ResourceKind::Network, "/tmp/a".to_string(), DecisionScope::Once)
        .unwrap();
    assert_eq!(other_kind, RequestOutcome::Prompted);
}

#[test]
fn deny_always_resolves_later_equivalent_requests() {
    let mut orch = Orchestrator::new();
    running_task(&mut orch, "t");
    orch.request_permission("t", ResourceKind::Env, "HOME".to_string(), DecisionScope::Session)
        .unwrap();
    orch.respond_to_permission_prompt("t", PermissionResponse::DenyAlways)
        .unwrap();
    let again = orch
        .request_permission("t", ResourceKind::Env, "HOME".to_string(), DecisionScope::Once)
        .unwrap();
    assert_eq!(again, RequestOutcome::Resolved(PermissionResponse::DenyAlways));
}

#[test]
fn decision_cache_is_per_task() {
    let mut orch = Orchestrator::new();
    running_task(&mut orch, "a");
    running_task(&mut orch, "b");
    orch.request_permission("a", ResourceKind::File, "/tmp/x".to_string(), DecisionScope::Session)
        .unwrap();
    orch.respond_to_permission_prompt("a", PermissionResponse::AllowAlways)
        .unwrap();
    // Task b never saw that decision.
    let b = orch
        .request_permission("b", ResourceKind::File, "/tmp/x".to_string(), DecisionScope::Once)
        .unwrap();
    assert_eq!(b, RequestOutcome::Prompted);
}

#[test]
fn stop_resolves_outstanding_prompt_and_cancels() {
    let mut orch = Orchestrator::new();
    running_task(&mut orch, "t");
    orch.request_permission("t", ResourceKind::Subprocess, "sh".to_string(), DecisionScope::Once)
        .unwrap();
    assert_eq!(
        orch.get_task_state("t").unwrap().state,
        TaskState::AwaitingPermission
    );
    orch.stop_task("t", 5).unwrap();
    let snap = orch.get_task_state("t").unwrap();
    // Never stuck both awaiting permission and cancelled.
    assert_eq!(snap.state, TaskState::Cancelled);
    assert!(snap.pending_request.is_none());

    // A late response after the cancellation is ignored.
    let late = orch
        .respond_to_permission_prompt("t", PermissionResponse::AllowOnce)
        .unwrap();
    assert_eq!(late, RespondEffect::NoOutstandingRequest);
    assert_eq!(orch.get_task_state("t").unwrap().state, TaskState::Cancelled);
}

#[test]
fn request_from_cancelled_task_is_refused() {
    let mut orch = Orchestrator::new();
    running_task(&mut orch, "t");
    orch.stop_task("t", 2).unwrap();
    let r = orch
        .request_permission("t", ResourceKind::File, "/tmp".to_string(), DecisionScope::Once)
        .unwrap();
    assert_eq!(r, RequestOutcome::RefusedTerminal);
}

#[test]
fn second_request_while_awaiting_is_rejected() {
    let mut orch = Orchestrator::new();
    running_task(&mut orch, "t");
    orch.request_permission("t", ResourceKind::File, "/a".to_string(), DecisionScope::Once)
        .unwrap();
    let r = orch.request_permission("t", ResourceKind::File, "/b".to_string(), DecisionScope::Once);
    assert_eq!(r.unwrap_err(), OrchError::InternalConsistencyError);
}
