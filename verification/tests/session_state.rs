use openlive::protocol::{LatencyPhase, OutputTextDelta, ProviderLifecycleState, ProviderState, RealtimeEvent};
use openlive::session_state::{ClientTimeline, LatencyTracker, PlayoutTracker, RepairContext, TelemetryGate};
use uuid::Uuid;

#[test]
fn repair_context_is_one_shot() {
    let generation_id = Uuid::new_v4();
    let mut repair = RepairContext::default();
    repair.record_interruption(generation_id.as_u128(), 42_000);
    let prompt = repair.take_prompt();
    assert!(prompt.contains(&generation_id.to_string()));
    assert!(prompt.contains("higher priority"));
    assert!(repair.take_prompt().is_empty());
}

#[test]
fn playout_tracks_monotonic_acknowledgements_and_cancel() {
    let mut playout = PlayoutTracker::default();
    playout.sent(40_000);
    playout.sent(20_000);
    assert!(playout.is_active());
    playout.played(10_000);
    assert!(playout.is_active());
    playout.played(40_000);
    assert!(!playout.is_active());
    playout.sent(60_000);
    playout.cancel();
    assert!(!playout.is_active());
}

#[test]
fn client_timeline_rejects_replay_and_time_regression() {
    let mut timeline = ClientTimeline::default();
    assert!(timeline.observe(1, "microphone", 20_000).is_ok());
    assert_eq!(
        timeline.observe(1, "microphone", 20_000),
        Err("client sequence must increase")
    );
    assert_eq!(
        timeline.observe(2, "microphone", 10_000),
        Err("client media time must not move backward within a stream")
    );
    assert!(timeline.observe(3, "assistant_playout", 10_000).is_ok());
    assert!(timeline.observe(4, "microphone", 40_000).is_ok());
}

#[test]
fn telemetry_gate_limits_routine_updates_but_allows_forced_events() {
    let mut gate = TelemetryGate::default();
    assert!(gate.should_publish(0, false));
    assert!(!gate.should_publish(20_000, false));
    assert!(gate.should_publish(40_000, true));
    assert!(!gate.should_publish(100_000, false));
    assert!(gate.should_publish(140_000, false));
}

#[test]
fn telemetry_gate_publishes_at_exactly_the_interval() {
    let mut gate = TelemetryGate::default();
    assert!(gate.should_publish(1_000, false));
    assert!(!gate.should_publish(100_999, false));
    assert!(gate.should_publish(101_000, false));
}

#[test]
fn client_timeline_keeps_streams_apart() {
    let mut timeline = ClientTimeline::new();
    assert!(timeline.observe(5, "a", 50).is_ok());
    assert!(timeline.observe(6, "b", 10).is_ok());
    assert!(timeline.observe(7, "a", 50).is_ok());
    assert_eq!(
        timeline.observe(8, "b", 9),
        Err("client media time must not move backward within a stream")
    );
    assert_eq!(timeline.observe(7, "c", 0), Err("client sequence must increase"));
}

#[test]
fn playout_sent_keeps_the_latest_time() {
    let mut playout = PlayoutTracker::default();
    assert!(!playout.is_active());
    playout.sent(5);
    playout.played(4);
    assert!(playout.is_active());
    playout.played(6);
    assert!(!playout.is_active());
}

#[test]
fn repair_without_interruption_gives_empty_prompt() {
    let mut repair = RepairContext::default();
    assert_eq!(repair.take_prompt(), "");
}

#[test]
fn latency_marks_each_first_once() {
    let mut t = LatencyTracker::new();
    let delta = RealtimeEvent::OutputTextDelta(OutputTextDelta { delta: "Hi".to_owned() });
    let phases: Vec<LatencyPhase> = t.observe(&delta).into_iter().map(|m| m.phase).collect();
    assert_eq!(phases, vec![LatencyPhase::FirstProviderEvent, LatencyPhase::FirstTextDelta]);
    assert!(t.observe(&delta).is_empty());
    let audio: Vec<LatencyPhase> = t.observe_audio().into_iter().map(|m| m.phase).collect();
    assert_eq!(audio, vec![LatencyPhase::FirstAudioFrame]);
    assert!(t.observe_audio().is_empty());
    let done = RealtimeEvent::ProviderState(ProviderState { state: ProviderLifecycleState::Complete });
    let marks = t.observe(&done);
    assert_eq!(marks.len(), 1);
    assert_eq!(marks[0].phase, LatencyPhase::ProviderComplete);
}
