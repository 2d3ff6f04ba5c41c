use openlive::media::{MediaKind, MediaPacket, MediaPacketError, PcmAudioFrame};
use openlive::protocol::{BackchannelLevel, InteractionProfile, InterruptionSensitivity};

fn packet(pcm: Vec<u8>, generation_id: Option<u128>) -> MediaPacket {
    MediaPacket {
        kind: MediaKind::InputAudio,
        sequence: 1,
        media_time_us: 0,
        generation_id,
        audio: PcmAudioFrame {
            pcm,
            sample_rate: 16_000,
            channels: 1,
            frame_duration_ms: 20,
            client_speech_probability: None,
            client_output_level: None,
            client_echo_probability: None,
        },
    }
}

#[test]
fn default_profile_is_conservative_about_backchannels() {
    let profile = InteractionProfile::default();
    assert_eq!(profile.backchannels, BackchannelLevel::Minimal);
    assert_eq!(profile.interruption_sensitivity, InterruptionSensitivity::Balanced);
    assert_eq!(profile.pause_tolerance_ms, 650);
}

#[test]
fn packet_round_trips_without_base64() {
    let packet = MediaPacket {
        kind: MediaKind::InputAudio,
        sequence: 42,
        media_time_us: 840_000,
        generation_id: None,
        audio: PcmAudioFrame {
            pcm: vec![1, 2, 3, 4],
            sample_rate: 16_000,
            channels: 1,
            frame_duration_ms: 20,
            client_speech_probability: Some(0.8f32.to_bits()),
            client_output_level: Some(0.2f32.to_bits()),
            client_echo_probability: None,
        },
    };
    let decoded = MediaPacket::decode(&packet.encode()).expect("decode");
    assert_eq!(decoded, packet);
}

#[test]
fn packet_with_generation_round_trips() {
    let mut p = packet(vec![9; 10], Some(0x0123_4567_89ab_cdef_0011_2233_4455_6677));
    p.kind = MediaKind::OutputAudio;
    assert_eq!(MediaPacket::decode(&p.encode()), Ok(p));
}

#[test]
fn rejects_corrupt_or_truncated_packets() {
    assert_eq!(MediaPacket::decode(&[0; 8]), Err(MediaPacketError::Truncated));
    let mut bytes = packet(vec![0; 640], None).encode();
    bytes[0] = b'X';
    assert_eq!(MediaPacket::decode(&bytes), Err(MediaPacketError::InvalidMagic));

    let mut unsupported = packet(vec![0; 640], None).encode();
    unsupported[4] = 2;
    assert_eq!(MediaPacket::decode(&unsupported), Err(MediaPacketError::UnsupportedVersion(2)));
    unsupported[4] = 1;
    unsupported[5] = 9;
    assert_eq!(MediaPacket::decode(&unsupported), Err(MediaPacketError::InvalidKind(9)));
}

#[test]
fn rejects_packets_without_payload() {
    let bytes = packet(vec![], None).encode();
    assert_eq!(MediaPacket::decode(&bytes), Err(MediaPacketError::MissingPayload));
}

#[test]
fn error_messages_describe_the_fault() {
    assert_eq!(MediaPacketError::Truncated.message(), "media packet header is truncated");
    assert_eq!(MediaPacketError::InvalidKind(3).message(), "invalid media packet kind");
}
