use openlive::streaming::{pcm_frame_size, PcmFramer, SpeechSegmenter};
use openlive::wav::{pcm_to_wav, wav_to_pcm_s16le};

#[test]
fn speech_segmenter_emits_early_complete_clause() {
    let mut segmenter = SpeechSegmenter::default();
    assert!(segmenter.push("This is a natural opening").is_empty());
    let segments = segmenter.push(" sentence. The next thought");
    assert_eq!(segments, vec!["This is a natural opening sentence."]);
    assert_eq!(segmenter.finish().as_deref(), Some("The next thought"));
}

#[test]
fn speech_segmenter_finish_of_blank_is_none() {
    let mut segmenter = SpeechSegmenter::new();
    assert!(segmenter.push("   ").is_empty());
    assert_eq!(segmenter.finish(), None);
}

#[test]
fn pcm_framer_preserves_and_pads_stream_bytes() {
    let mut packetizer = PcmFramer::default();
    let output_frames = packetizer.push(&vec![1_u8; pcm_frame_size() + 100]);
    assert_eq!(output_frames.len(), 1);
    assert_eq!(output_frames[0].len(), pcm_frame_size());
    let final_frame = packetizer.finish().expect("final frame");
    assert_eq!(final_frame.len(), pcm_frame_size());
    assert!(final_frame[..100].iter().all(|byte| *byte == 1));
    assert!(final_frame[100..].iter().all(|byte| *byte == 0));
}

#[test]
fn pcm_framer_concatenates_pushes() {
    let mut framer = PcmFramer::new();
    let mut all: Vec<u8> = Vec::new();
    let mut frames: Vec<Vec<u8>> = Vec::new();
    for k in 0..5u8 {
        let chunk: Vec<u8> = (0..700u32).map(|i| (i as u8).wrapping_add(k)).collect();
        all.extend_from_slice(&chunk);
        frames.extend(framer.push(&chunk));
    }
    assert_eq!(frames.len(), 3500 / pcm_frame_size());
    let flat: Vec<u8> = frames.concat();
    assert_eq!(&flat[..], &all[..flat.len()]);
    let last = framer.finish().expect("remainder");
    assert_eq!(&last[..all.len() - flat.len()], &all[flat.len()..]);
}

#[test]
fn pcm_framer_without_remainder_finishes_empty() {
    let mut framer = PcmFramer::new();
    assert_eq!(framer.push(&vec![3_u8; pcm_frame_size() * 2]).len(), 2);
    assert!(framer.finish().is_none());
}

#[test]
fn wav_has_expected_header_and_size() {
    let pcm = vec![0_u8; 640];
    let wav = pcm_to_wav(&pcm, 16_000).expect("wav");
    assert_eq!(&wav[..4], b"RIFF");
    assert_eq!(&wav[8..12], b"WAVE");
    assert_eq!(wav.len(), 684);
}

#[test]
fn wav_round_trips_pcm() {
    let pcm: Vec<u8> = (0..200u32).map(|i| i as u8).collect();
    let wav = pcm_to_wav(&pcm, 24_000).expect("wav");
    let (back, rate) = wav_to_pcm_s16le(&wav).expect("decode");
    assert_eq!(back, pcm);
    assert_eq!(rate, 24_000);
}

#[test]
fn wav_decode_rejects_garbage() {
    assert!(wav_to_pcm_s16le(b"not a wav file at all, definitely").is_err());
    assert!(wav_to_pcm_s16le(b"").is_err());
}
