use openlive::protocol::{
    EvidenceKind, EvidenceLink, EvidenceLinkType, TaskRequested, TaskResultKind, TaskStatus,
};
use openlive::tasks::{TaskOrchestrator, DEFAULT_TASK_DEADLINE_MS};
use uuid::Uuid;

fn new_id() -> u128 {
    Uuid::new_v4().as_u128()
}

fn sample_request(task_id: u128, intent: &str) -> TaskRequested {
    TaskRequested {
        task_id,
        intent: intent.to_owned(),
        context: None,
        deadline_ms: None,
        evidence_required: vec![EvidenceKind::Transcript, EvidenceKind::ToolCall],
        generation_id: None,
    }
}

fn link(source_id: u128, target_id: u128, link_type: EvidenceLinkType, confidence: f32) -> EvidenceLink {
    EvidenceLink {
        source_id,
        target_id,
        link_type,
        confidence: confidence.to_bits(),
    }
}

#[test]
fn admit_accepts_valid_task_and_returns_acknowledgement() {
    let mut orchestrator = TaskOrchestrator::new();
    let task_id = new_id();
    let ack = orchestrator
        .admit_request(sample_request(task_id, "Set a reminder"), Some("mock"), 1_000)
        .expect("valid task is admitted");
    assert_eq!(ack.task_id, task_id);
    assert_eq!(ack.status, TaskStatus::Queued);
    assert_eq!(ack.provider_id.as_deref(), Some("mock"));
    assert_eq!(ack.deadline_ms, 1_000 + DEFAULT_TASK_DEADLINE_MS);
    assert_eq!(orchestrator.active_count(), 1);
}

#[test]
fn admit_rejects_empty_intent_and_duplicate_task_id() {
    let mut orchestrator = TaskOrchestrator::new();
    let task_id = new_id();
    let mut empty = sample_request(task_id, "   ");
    empty.intent = "   ".to_owned();
    assert!(orchestrator.admit_request(empty, None, 0).is_none());
    assert_eq!(orchestrator.active_count(), 0);

    let first = orchestrator
        .admit_request(sample_request(task_id, "Remind me"), None, 0)
        .expect("first admit");
    assert!(first.task_id == task_id);
    assert!(orchestrator
        .admit_request(sample_request(task_id, "Remind me again"), None, 0)
        .is_none());
    assert_eq!(orchestrator.active_count(), 1);
}

#[test]
fn admit_warns_when_visual_evidence_requested_without_provider() {
    let mut orchestrator = TaskOrchestrator::new();
    let task_id = new_id();
    let mut request = sample_request(task_id, "Share a screenshot");
    request.evidence_required = vec![EvidenceKind::Visual];
    let ack = orchestrator
        .admit_request(request, None, 0)
        .expect("task without provider is still admitted");
    assert!(
        ack.warnings
            .iter()
            .any(|w| w.contains("visual evidence may be unavailable")),
        "acknowledgement should warn about visual evidence: {:?}",
        ack.warnings
    );
}

#[test]
fn admit_binds_to_supplied_generation_id() {
    let mut orchestrator = TaskOrchestrator::new();
    let task_id = new_id();
    let generation_id = new_id();
    let mut request = sample_request(task_id, "Do this");
    request.generation_id = Some(generation_id);
    orchestrator.admit_request(request, Some("mock"), 0).expect("admit");
    let other_gen = new_id();
    let outcomes = orchestrator.complete_tasks_for_generation(other_gen);
    assert!(outcomes.is_empty());
    let outcomes = orchestrator.complete_tasks_for_generation(generation_id);
    assert_eq!(outcomes.len(), 1);
    assert_eq!(outcomes[0].task_id, task_id);
    assert_eq!(outcomes[0].result, TaskResultKind::Success);
}

#[test]
fn bind_pending_to_generation_attaches_unbound_tasks() {
    let mut orchestrator = TaskOrchestrator::new();
    let task_a = new_id();
    let task_b = new_id();
    orchestrator
        .admit_request(sample_request(task_a, "Task A"), Some("mock"), 0)
        .expect("admit A");
    orchestrator
        .admit_request(sample_request(task_b, "Task B"), Some("mock"), 0)
        .expect("admit B");
    let generation_id = new_id();
    let bound = orchestrator.bind_pending_to_generation(generation_id);
    assert_eq!(bound.len(), 2);
    let other = new_id();
    assert!(orchestrator.complete_tasks_for_generation(other).is_empty());
    let outcomes = orchestrator.complete_tasks_for_generation(generation_id);
    assert_eq!(outcomes.len(), 2);
    let completed_ids: Vec<u128> = outcomes.iter().map(|o| o.task_id).collect();
    assert!(completed_ids.contains(&task_a));
    assert!(completed_ids.contains(&task_b));
}

#[test]
fn complete_tasks_for_generation_only_completes_bound_tasks() {
    let mut orchestrator = TaskOrchestrator::new();
    let gen_1 = new_id();
    let gen_2 = new_id();
    let mut req_a = sample_request(new_id(), "Task A");
    req_a.generation_id = Some(gen_1);
    orchestrator.admit_request(req_a, Some("mock"), 0).expect("admit A");
    let mut req_b = sample_request(new_id(), "Task B");
    req_b.generation_id = Some(gen_2);
    orchestrator.admit_request(req_b, Some("mock"), 0).expect("admit B");
    let outcomes = orchestrator.complete_tasks_for_generation(gen_1);
    assert_eq!(outcomes.len(), 1);
    assert_eq!(outcomes[0].result, TaskResultKind::Success);
    assert_eq!(orchestrator.active_count(), 1, "Task B must remain active");
    let outcomes = orchestrator.complete_tasks_for_generation(gen_2);
    assert_eq!(outcomes.len(), 1);
    assert_eq!(orchestrator.active_count(), 0);
}

#[test]
fn expire_deadlines_emits_failure_outcome_for_elapsed_tasks() {
    let mut orchestrator = TaskOrchestrator::new();
    let task_id = new_id();
    let mut request = sample_request(task_id, "Slow task");
    request.deadline_ms = Some(5_000);
    orchestrator.admit_request(request, Some("mock"), 0).expect("admit");
    assert!(orchestrator.expire_deadlines(4_999).is_empty());
    assert_eq!(orchestrator.active_count(), 1);
    let outcomes = orchestrator.expire_deadlines(5_000);
    assert_eq!(outcomes.len(), 1);
    assert_eq!(outcomes[0].task_id, task_id);
    assert_eq!(outcomes[0].result, TaskResultKind::Failure);
    assert_eq!(outcomes[0].error_code.as_deref(), Some("DEADLINE_ELAPSED"));
    assert!(outcomes[0].summary.contains("Slow task"));
    assert!(outcomes[0].summary.contains("timed out"));
    assert_eq!(orchestrator.active_count(), 0);
    assert!(orchestrator.expire_deadlines(10_000).is_empty());
}

#[test]
fn cancel_task_emits_cancelled_outcome() {
    let mut orchestrator = TaskOrchestrator::new();
    let task_id = new_id();
    orchestrator
        .admit_request(sample_request(task_id, "Remind me"), Some("mock"), 0)
        .expect("admit");
    let outcome = orchestrator
        .cancel_task(task_id, Some("user changed their mind"))
        .expect("cancel returns outcome for active task");
    assert_eq!(outcome.task_id, task_id);
    assert_eq!(outcome.result, TaskResultKind::Cancelled);
    assert_eq!(outcome.error_code.as_deref(), Some("CLIENT_CANCELLED"));
    assert!(outcome.summary.contains("Remind me"));
    assert!(outcome.summary.contains("cancelled"));
    assert_eq!(orchestrator.active_count(), 0);
    assert!(orchestrator.cancel_task(task_id, None).is_none());
}

#[test]
fn cancel_unknown_task_returns_none() {
    let mut orchestrator = TaskOrchestrator::new();
    assert!(orchestrator.cancel_task(new_id(), None).is_none());
}

#[test]
fn mark_resolved_removes_active_record() {
    let mut orchestrator = TaskOrchestrator::new();
    let task_id = new_id();
    orchestrator
        .admit_request(sample_request(task_id, "Do this"), Some("mock"), 0)
        .expect("admit");
    assert!(orchestrator.mark_resolved(task_id, TaskResultKind::Success));
    assert_eq!(orchestrator.active_count(), 0);
    assert!(!orchestrator.mark_resolved(task_id, TaskResultKind::Success));
}

#[test]
fn attach_evidence_is_idempotent() {
    let mut orchestrator = TaskOrchestrator::new();
    let task_id = new_id();
    orchestrator
        .admit_request(sample_request(task_id, "Do this"), Some("mock"), 0)
        .expect("admit");
    let evidence_id = new_id();
    assert!(orchestrator.attach_evidence(task_id, EvidenceKind::Transcript, evidence_id));
    assert!(!orchestrator.attach_evidence(task_id, EvidenceKind::Transcript, evidence_id));
    assert!(orchestrator.attach_evidence(task_id, EvidenceKind::ToolCall, evidence_id));
    assert!(!orchestrator.attach_evidence(new_id(), EvidenceKind::Transcript, evidence_id));
}

#[test]
fn link_evidence_indexes_both_directions() {
    let mut orchestrator = TaskOrchestrator::new();
    let task_id = new_id();
    let evidence_id = new_id();
    let l = link(task_id, evidence_id, EvidenceLinkType::TaskProof, 0.92);
    assert!(orchestrator.link_evidence(&l));
    assert!(!orchestrator.link_evidence(&l));
    let forward = orchestrator.evidence_for(task_id);
    assert_eq!(forward, vec![evidence_id]);
    let reverse = orchestrator.tasks_for_evidence(evidence_id);
    assert_eq!(reverse, vec![task_id]);
}

#[test]
fn link_evidence_supports_multiple_proofs_per_task() {
    let mut orchestrator = TaskOrchestrator::new();
    let task_id = new_id();
    let proof_a = new_id();
    let proof_b = new_id();
    orchestrator.link_evidence(&link(task_id, proof_a, EvidenceLinkType::TaskProof, 1.0));
    orchestrator.link_evidence(&link(task_id, proof_b, EvidenceLinkType::TaskContext, 0.4));
    let mut proofs = orchestrator.evidence_for(task_id);
    proofs.sort();
    let mut expected = vec![proof_a, proof_b];
    expected.sort();
    assert_eq!(proofs, expected);
}

#[test]
fn evidence_for_unknown_task_returns_empty_vec() {
    let orchestrator = TaskOrchestrator::new();
    assert!(orchestrator.evidence_for(new_id()).is_empty());
}

#[test]
fn tasks_for_evidence_unknown_id_returns_empty_vec() {
    let orchestrator = TaskOrchestrator::new();
    assert!(orchestrator.tasks_for_evidence(new_id()).is_empty());
}

#[test]
fn link_evidence_distinguishes_link_types_between_same_endpoints() {
    let mut orchestrator = TaskOrchestrator::new();
    let task_id = new_id();
    let evidence_id = new_id();
    orchestrator.link_evidence(&link(task_id, evidence_id, EvidenceLinkType::TaskProof, 0.9));
    assert!(orchestrator.link_evidence(&link(task_id, evidence_id, EvidenceLinkType::TaskContext, 0.3)));
    assert_eq!(orchestrator.evidence_for(task_id).len(), 2);
}

#[test]
fn buffer_outbound_deduplicates_by_event_id() {
    let mut orchestrator = TaskOrchestrator::new();
    let event_id = new_id();
    let json = r#"{"sequence":1}"#.to_owned();
    assert!(orchestrator.buffer_outbound(1, event_id, json.clone()));
    assert!(!orchestrator.buffer_outbound(2, event_id, json.clone()));
    assert_eq!(orchestrator.buffered_count(), 1);
}

#[test]
fn replay_after_returns_only_events_above_threshold_in_order() {
    let mut orchestrator = TaskOrchestrator::new();
    let a = new_id();
    let b = new_id();
    let c = new_id();
    orchestrator.buffer_outbound(10, a, r#"{"sequence":10,"id":"a"}"#.to_owned());
    orchestrator.buffer_outbound(20, b, r#"{"sequence":20,"id":"b"}"#.to_owned());
    orchestrator.buffer_outbound(30, c, r#"{"sequence":30,"id":"c"}"#.to_owned());
    let replay = orchestrator.replay_after(15);
    assert_eq!(replay.len(), 2);
    assert!(replay[0].contains("\"id\":\"b\""));
    assert!(replay[1].contains("\"id\":\"c\""));
}

#[test]
fn replay_after_returns_empty_when_nothing_new() {
    let mut orchestrator = TaskOrchestrator::new();
    let a = new_id();
    orchestrator.buffer_outbound(5, a, r#"{"sequence":5}"#.to_owned());
    assert!(orchestrator.replay_after(5).is_empty());
    let mut empty = TaskOrchestrator::new();
    assert!(empty.replay_after(0).is_empty());
}

#[test]
fn complete_tasks_for_generation_summary_cites_intent_and_evidence_kinds() {
    let mut orchestrator = TaskOrchestrator::new();
    let task_id = new_id();
    let generation_id = new_id();
    let mut request = sample_request(task_id, "Set a reminder for 3pm");
    request.generation_id = Some(generation_id);
    orchestrator.admit_request(request, Some("mock"), 0).expect("admit");
    let evidence_id = new_id();
    orchestrator.attach_evidence(task_id, EvidenceKind::Transcript, evidence_id);
    orchestrator.link_evidence(&link(task_id, evidence_id, EvidenceLinkType::TaskProof, 1.0));
    let outcomes = orchestrator.complete_tasks_for_generation(generation_id);
    assert_eq!(outcomes.len(), 1);
    let summary = &outcomes[0].summary;
    assert!(summary.contains("Set a reminder for 3pm"), "summary should cite intent: {summary}");
    assert!(summary.contains("1 evidence"), "summary should cite evidence count: {summary}");
    assert!(summary.contains("transcript"), "summary should cite evidence kind: {summary}");
    assert_eq!(outcomes[0].evidence_ids, vec![evidence_id]);
}

#[test]
fn expire_deadlines_summary_cites_intent_and_deadline() {
    let mut orchestrator = TaskOrchestrator::new();
    let task_id = new_id();
    let mut request = sample_request(task_id, "Slow reminder");
    request.deadline_ms = Some(3_000);
    orchestrator.admit_request(request, Some("mock"), 0).expect("admit");
    let outcomes = orchestrator.expire_deadlines(3_000);
    assert_eq!(outcomes.len(), 1);
    let summary = &outcomes[0].summary;
    assert!(summary.contains("Slow reminder"), "summary should cite intent: {summary}");
    assert!(summary.contains("timed out"), "summary should cite timeout: {summary}");
    let detail = outcomes[0].error_detail.as_deref().unwrap_or("");
    assert!(detail.contains("3000"), "detail should cite deadline: {detail}");
}

#[test]
fn resolved_task_id_cannot_be_admitted_again() {
    let mut orchestrator = TaskOrchestrator::new();
    let task_id = new_id();
    orchestrator
        .admit_request(sample_request(task_id, "Once"), None, 0)
        .expect("admit");
    assert!(orchestrator.mark_resolved(task_id, TaskResultKind::Failure));
    assert!(orchestrator
        .admit_request(sample_request(task_id, "Twice"), None, 0)
        .is_none());
    assert!(orchestrator.cancel_task(task_id, None).is_none());
}

#[test]
fn zero_default_deadline_gives_the_longest_implicit_deadline() {
    let mut orchestrator = TaskOrchestrator::new();
    orchestrator.set_default_task_deadline_ms(0);
    assert_eq!(orchestrator.default_task_deadline_ms(), 0);
    let task_id = new_id();
    let ack = orchestrator
        .admit_request(sample_request(task_id, "No deadline"), None, 7)
        .expect("admit");
    let deadline = 7 + u64::from(u32::MAX);
    assert_eq!(ack.deadline_ms, deadline);
    assert!(orchestrator.expire_deadlines(deadline - 1).is_empty());
    assert_eq!(orchestrator.expire_deadlines(deadline).len(), 1);
}

#[test]
fn links_are_deduplicated_whatever_their_confidence() {
    let mut orchestrator = TaskOrchestrator::new();
    let task_id = new_id();
    let evidence_id = new_id();
    assert!(orchestrator.link_evidence(&link(task_id, evidence_id, EvidenceLinkType::TaskProof, 0.5)));
    assert!(!orchestrator.link_evidence(&link(task_id, evidence_id, EvidenceLinkType::TaskProof, 0.9)));
    assert_eq!(orchestrator.evidence_for(task_id), vec![evidence_id]);
}
