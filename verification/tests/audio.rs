use openlive::audio::{check_analysis_frame, expected_pcm_bytes, validate_frame};
use openlive::media::PcmAudioFrame;

fn pcm_frame(sample: i16) -> PcmAudioFrame {
    let bytes: Vec<u8> = (0..320).flat_map(|_| sample.to_le_bytes()).collect();
    PcmAudioFrame {
        pcm: bytes,
        sample_rate: 16_000,
        channels: 1,
        frame_duration_ms: 20,
        client_speech_probability: None,
        client_output_level: None,
        client_echo_probability: None,
    }
}

#[test]
fn rejects_wrong_frame_length() {
    let mut frame = pcm_frame(0);
    frame.pcm = vec![0_u8; 4];
    let error = check_analysis_frame(&frame).expect_err("length");
    assert!(error.contains("PCM length mismatch"));
    assert_eq!(error, "PCM length mismatch: expected 640 bytes, received 4");
    assert!(check_analysis_frame(&pcm_frame(10_000)).is_ok());
}

#[test]
fn frame_formats_are_checked_in_order() {
    let mut f = pcm_frame(0);
    f.channels = 2;
    assert_eq!(validate_frame(&f), Err("only mono input is supported".to_owned()));
    let mut f = pcm_frame(0);
    f.sample_rate = 7_999;
    assert_eq!(validate_frame(&f), Err("input sample rate must be between 8 kHz and 48 kHz".to_owned()));
    let mut f = pcm_frame(0);
    f.frame_duration_ms = 101;
    assert_eq!(validate_frame(&f), Err("frame duration must be between 5 ms and 100 ms".to_owned()));
    assert!(validate_frame(&pcm_frame(0)).is_ok());
}

#[test]
fn expected_bytes_follow_the_metadata() {
    assert_eq!(expected_pcm_bytes(&pcm_frame(0)), 640);
    let mut f = pcm_frame(0);
    f.sample_rate = 48_000;
    f.frame_duration_ms = 10;
    assert_eq!(expected_pcm_bytes(&f), 960);
}
