use openlive::mock::{
    is_bogus_prompt, is_filler_only, mock_opening, pcm_i16_to_le_bytes, preview_plan, reply_closing_events,
    reply_text_deltas, text_to_phone_units, voice_display_name, voice_f0, MockOpening, PhoneUnit,
};
use openlive::protocol::RealtimeEvent;

#[test]
fn voice_names_come_from_presets() {
    assert_eq!(voice_display_name("en_US-amy-medium"), "Amy");
    assert_eq!(voice_display_name("maple"), "Maple");
    assert_eq!(voice_display_name("custom-voice"), "custom-voice");
}

#[test]
fn samples_are_little_endian() {
    assert_eq!(pcm_i16_to_le_bytes(&[1, -1, 0x1234]), vec![1, 0, 0xff, 0xff, 0x34, 0x12]);
    assert!(pcm_i16_to_le_bytes(&[]).is_empty());
}

#[test]
fn filler_only_prompts_are_acknowledged() {
    assert!(is_filler_only("Um uh..."));
    assert!(!is_filler_only("um, uh"));
    assert!(is_filler_only("  ?! "));
    assert!(!is_filler_only("um what time is it"));
    assert_eq!(mock_opening("yeah okay"), MockOpening::Acknowledge);
    assert_eq!(mock_opening("OpenLive detected a completed speech turn."), MockOpening::Ignore);
    assert_eq!(mock_opening("tell me a joke"), MockOpening::Reply);
}

#[test]
fn bogus_prompts_are_detected() {
    assert!(is_bogus_prompt("   "));
    assert!(is_bogus_prompt("xx OpenLive detected a completed speech turn yy"));
    assert!(!is_bogus_prompt("hello"));
}

#[test]
fn reply_streams_word_by_word() {
    let d = reply_text_deltas("Hello  there world");
    assert_eq!(
        d,
        vec![
            (0, "Hello".to_owned()),
            (8_000, " there".to_owned()),
            (16_000, " world".to_owned()),
        ]
    );
    let (fin, done) = reply_closing_events("Hello there");
    match fin {
        RealtimeEvent::OutputTextFinal(f) => assert_eq!(f.text, "Hello there"),
        _ => panic!("expected the final text"),
    }
    assert!(matches!(done, RealtimeEvent::ProviderState(_)));
}

#[test]
fn preview_plan_names_the_voice_and_bounds_length() {
    let p = preview_plan("alloy", "  ", 0);
    assert_eq!(p.text, "This is the Alloy voice.");
    assert_eq!(p.samples_per_frame, 480);
    assert_eq!(p.frame_count, 24 * 70 / 20);
    let short = preview_plan("x", "hi", 16_000);
    assert_eq!(short.samples_per_frame, 320);
    assert_eq!(short.frame_count, 28);
    let long = preview_plan("x", &"a".repeat(200), 16_000);
    assert_eq!(long.frame_count, 175);
}

#[test]
fn text_to_phone_units_covers_letters() {
    let units = text_to_phone_units("hi");
    assert!(units.len() >= 2);
}

#[test]
fn phones_follow_letters_and_pauses() {
    let units = text_to_phone_units("Ha 1");
    assert_eq!(units.len(), 4);
    assert_eq!(units[0], PhoneUnit { f1: 500, f2: 4000, f3: 5000, voiced: false, duration_ms: 55 });
    assert_eq!(units[1], PhoneUnit { f1: 800, f2: 1200, f3: 2500, voiced: true, duration_ms: 95 });
    assert_eq!(units[2], PhoneUnit { f1: 500, f2: 1500, f3: 2500, voiced: false, duration_ms: 50 });
    assert_eq!(units[3], PhoneUnit { f1: 400, f2: 1200, f3: 2400, voiced: false, duration_ms: 40 });
    let empty = text_to_phone_units("");
    assert_eq!(empty, vec![PhoneUnit { f1: 500, f2: 1500, f3: 2500, voiced: true, duration_ms: 200 }]);
    assert_eq!(text_to_phone_units("Q")[0].duration_ms, 70);
}

#[test]
fn voice_pitch_comes_from_presets() {
    assert_eq!(voice_f0("aria"), 200);
    assert_eq!(voice_f0("cove"), 118);
    assert_eq!(voice_f0("nobody"), 165);
}
