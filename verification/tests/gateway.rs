use openlive::gateway::{api_key_accepted, base64_encode, resolved_api_key, task_hint, transcript_turns, TaskHint, TranscriptRow, TranscriptTurn, check_client_event, next_sequence, SessionRegistry};
use openlive::protocol::{EventEnvelope, RealtimeEvent};
use openlive::session_state::ClientTimeline;
use uuid::Uuid;

#[test]
fn register_list_unregister() {
    let mut reg = SessionRegistry::new();
    let id = Uuid::new_v4().as_u128();
    reg.register(id, "mock");
    assert_eq!(reg.active_count(), 1);
    assert_eq!(reg.list()[0].session_id, id);
    reg.unregister(id);
    assert_eq!(reg.active_count(), 0);
    assert_eq!(reg.opened_total(), 1);
}

#[test]
fn registering_again_replaces_the_entry() {
    let mut reg = SessionRegistry::new();
    reg.register_at(7, "a", 1);
    reg.register_at(7, "b", 2);
    assert_eq!(reg.active_count(), 1);
    assert_eq!(reg.list()[0].provider_id, "b");
    assert_eq!(reg.opened_total(), 2);
    reg.unregister(8);
    assert_eq!(reg.active_count(), 1);
}

#[test]
fn base64_matches_the_standard_alphabet() {
    assert_eq!(base64_encode(b""), "");
    assert_eq!(base64_encode(b"f"), "Zg==");
    assert_eq!(base64_encode(b"fo"), "Zm8=");
    assert_eq!(base64_encode(b"foo"), "Zm9v");
    assert_eq!(base64_encode(&[0xff, 0xfe, 0xfd, 0x00]), "//79AA==");
}

#[test]
fn sequences_increase_from_the_counter() {
    let mut seq = 0u64;
    assert_eq!(next_sequence(&mut seq), 1);
    assert_eq!(next_sequence(&mut seq), 2);
    assert_eq!(seq, 2);
}

#[test]
fn api_key_guard_accepts_bearer_or_header() {
    assert!(api_key_accepted(None, None, None));
    assert!(api_key_accepted(Some("k1"), Some("Bearer k1"), None));
    assert!(!api_key_accepted(Some("k1"), Some("Bearer k2"), Some("k1")));
    assert!(api_key_accepted(Some("k1"), Some("Basic xyz"), Some("k1")));
    assert!(api_key_accepted(Some("k1"), None, Some("k1")));
    assert!(!api_key_accepted(Some("k1"), None, None));
}

#[test]
fn client_events_are_checked_against_the_connection() {
    let mut timeline = ClientTimeline::default();
    let ok = EventEnvelope::new(7, "session", 1, 10, RealtimeEvent::Ping);
    assert!(check_client_event(7, &mut timeline, &ok).is_ok());
    let other = EventEnvelope::new(8, "session", 2, 10, RealtimeEvent::Ping);
    assert_eq!(check_client_event(7, &mut timeline, &other).unwrap_err().code, "session_mismatch");
    let wrong_stream = EventEnvelope::new(7, "tasks", 2, 10, RealtimeEvent::Ping);
    let e = check_client_event(7, &mut timeline, &wrong_stream).unwrap_err();
    assert_eq!(e.code, "invalid_client_stream");
    assert_eq!(e.message, "expected stream_id session");
    let mut old = EventEnvelope::new(7, "session", 3, 10, RealtimeEvent::Ping);
    old.protocol_version = "0.9".to_owned();
    assert_eq!(
        check_client_event(7, &mut timeline, &old).unwrap_err().message,
        "expected protocol 1.0, received 0.9"
    );
    let replay = EventEnvelope::new(7, "session", 1, 20, RealtimeEvent::Ping);
    let e = check_client_event(7, &mut timeline, &replay).unwrap_err();
    assert_eq!(e.code, "invalid_client_timeline");
    assert_eq!(e.message, "client sequence must increase");
    assert_eq!(e.media_time_us, 20);
}

#[test]
fn api_key_flag_wins_over_environment() {
    assert_eq!(resolved_api_key(Some("flag".to_owned()), Some("env".to_owned())), Some("flag".to_owned()));
    assert_eq!(resolved_api_key(None, Some("env".to_owned())), Some("env".to_owned()));
    assert_eq!(resolved_api_key(Some(String::new()), Some("env".to_owned())), None);
    assert_eq!(resolved_api_key(None, Some(String::new())), None);
    assert_eq!(resolved_api_key(None, None), None);
}

fn row(sequence: u64, event_type: &str, text: Option<&str>, is_final: Option<bool>) -> TranscriptRow {
    TranscriptRow {
        sequence,
        event_id: format!("e{sequence}"),
        event_type: event_type.to_owned(),
        text: text.map(str::to_owned),
        is_final,
    }
}

#[test]
fn transcript_keeps_final_turns_in_order() {
    let rows = vec![
        row(1, "user_transcript_delta", Some("hel"), Some(false)),
        row(2, "user_transcript_delta", Some("hello"), Some(true)),
        row(3, "output_text_delta", Some("Hi"), None),
        row(4, "output_text_final", Some("Hi there."), None),
        row(5, "output_text_final", None, None),
        row(6, "user_transcript_delta", Some("bye"), None),
    ];
    let turns = transcript_turns(&rows);
    assert_eq!(
        turns,
        vec![
            TranscriptTurn { role: "user".to_owned(), text: "hello".to_owned(), sequence: 2, event_id: "e2".to_owned() },
            TranscriptTurn {
                role: "assistant".to_owned(),
                text: "Hi there.".to_owned(),
                sequence: 4,
                event_id: "e4".to_owned(),
            },
        ]
    );
    assert!(transcript_turns(&Vec::new()).is_empty());
}

#[test]
fn task_hint_needs_an_intent_and_gets_a_deadline() {
    assert_eq!(task_hint("   ", None, 0, 45_000), Err("intent is required".to_owned()));
    assert_eq!(
        task_hint("  call mom ", None, 1_000, 45_000),
        Ok(TaskHint { intent: "call mom".to_owned(), deadline_ms: 46_000 })
    );
    assert_eq!(task_hint("x", Some(7), 1_000, 45_000).map(|h| h.deadline_ms), Ok(7));
    assert_eq!(task_hint("x", None, 1_000, 0).map(|h| h.deadline_ms), Ok(2_000));
    assert_eq!(task_hint("x", None, u64::MAX - 5, 45_000).map(|h| h.deadline_ms), Ok(u64::MAX));
}
