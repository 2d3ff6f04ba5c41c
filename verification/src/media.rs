//! Binary media packets exchanged on the realtime transport.
//!
//! Layout (little-endian unless noted), 60-byte header followed by PCM:
//! `OLIV` magic, version, kind, 2 reserved bytes, sequence (u64),
//! media time (u64), generation id (16 bytes, big-endian, zero = none),
//! sample rate (u32), frame duration (u16), channels, 1 reserved byte,
//! then three IEEE-754 single-precision client hints where a NaN pattern
//! means "absent".

use vstd::bytes::*;
use vstd::prelude::*;

verus! {

broadcast use vstd::seq_lib::group_seq_properties;

/// Length of the fixed packet header in bytes.
pub const HEADER_LEN: usize = 60;

/// Wire format version written and accepted by this codec.
pub const WIRE_VERSION: u8 = 1;

/// Bit pattern written for an absent client hint (the canonical quiet NaN).
pub const ABSENT_HINT_BITS: u32 = 0x7fc0_0000;

#[derive(Debug, Clone, Copy, PartialEq, Eq, Structural)]
pub enum MediaKind {
    InputAudio,
    OutputAudio,
}

impl MediaKind {
    /// The byte that identifies this kind on the wire.
    pub open spec fn wire_byte(self) -> u8 {
        match self {
            MediaKind::InputAudio => 1,
            MediaKind::OutputAudio => 2,
        }
    }

    pub fn to_wire(&self) -> (b: u8)
        ensures
            b == self.wire_byte(),
    {
        match self {
            MediaKind::InputAudio => 1,
            MediaKind::OutputAudio => 2,
        }
    }
}

/// One mono PCM16 frame. The client hints carry the raw bit pattern of an
/// IEEE-754 single-precision value (`f32::to_bits`).
#[derive(Debug, Clone, PartialEq)]
pub struct PcmAudioFrame {
    pub pcm: Vec<u8>,
    pub sample_rate: u32,
    pub channels: u8,
    pub frame_duration_ms: u16,
    pub client_speech_probability: Option<u32>,
    pub client_output_level: Option<u32>,
    pub client_echo_probability: Option<u32>,
}

#[derive(Debug, Clone, PartialEq)]
pub struct MediaPacket {
    pub kind: MediaKind,
    pub sequence: u64,
    pub media_time_us: u64,
    /// Generation id as a 128-bit integer (big-endian on the wire).
    pub generation_id: Option<u128>,
    pub audio: PcmAudioFrame,
}

/// Mathematical model of a packet: every field, with the PCM bytes as a sequence.
pub struct MediaPacketModel {
    pub kind: MediaKind,
    pub sequence: u64,
    pub media_time_us: u64,
    pub generation_id: Option<u128>,
    pub pcm: Seq<u8>,
    pub sample_rate: u32,
    pub channels: u8,
    pub frame_duration_ms: u16,
    pub client_speech_probability: Option<u32>,
    pub client_output_level: Option<u32>,
    pub client_echo_probability: Option<u32>,
}

impl View for MediaPacket {
    type V = MediaPacketModel;

    open spec fn view(&self) -> MediaPacketModel {
        MediaPacketModel {
            kind: self.kind,
            sequence: self.sequence,
            media_time_us: self.media_time_us,
            generation_id: self.generation_id,
            pcm: self.audio.pcm@,
            sample_rate: self.audio.sample_rate,
            channels: self.audio.channels,
            frame_duration_ms: self.audio.frame_duration_ms,
            client_speech_probability: self.audio.client_speech_probability,
            client_output_level: self.audio.client_output_level,
            client_echo_probability: self.audio.client_echo_probability,
        }
    }
}

#[derive(Debug, Clone, Copy, PartialEq, Eq, Structural)]
pub enum MediaPacketError {
    Truncated,
    InvalidMagic,
    UnsupportedVersion(u8),
    InvalidKind(u8),
    InvalidGeneration,
    MissingPayload,
    InvalidAudioMetadata,
}

impl MediaPacketError {
    /// Human-readable description of the error.
    pub fn message(&self) -> (m: String)
        ensures
            m@ == match self {
                MediaPacketError::Truncated => "media packet header is truncated"@,
                MediaPacketError::InvalidMagic => "media packet magic is invalid"@,
                MediaPacketError::UnsupportedVersion(_) => "unsupported media packet version"@,
                MediaPacketError::InvalidKind(_) => "invalid media packet kind"@,
                MediaPacketError::InvalidGeneration => "invalid media generation ID"@,
                MediaPacketError::MissingPayload => "media packet has no PCM payload"@,
                MediaPacketError::InvalidAudioMetadata => "media audio metadata is invalid"@,
            },
    {
        match self {
            MediaPacketError::Truncated => "media packet header is truncated".to_owned(),
            MediaPacketError::InvalidMagic => "media packet magic is invalid".to_owned(),
            MediaPacketError::UnsupportedVersion(_) => "unsupported media packet version".to_owned(),
            MediaPacketError::InvalidKind(_) => "invalid media packet kind".to_owned(),
            MediaPacketError::InvalidGeneration => "invalid media generation ID".to_owned(),
            MediaPacketError::MissingPayload => "media packet has no PCM payload".to_owned(),
            MediaPacketError::InvalidAudioMetadata => "media audio metadata is invalid".to_owned(),
        }
    }
}

/// The four magic bytes `OLIV`.
pub open spec fn magic() -> Seq<u8> {
    seq![79u8, 76u8, 73u8, 86u8]
}

/// Big-endian bytes of a 128-bit id (the byte order of a UUID).
pub open spec fn id_be_bytes(x: u128) -> Seq<u8> {
    spec_u128_to_le_bytes(x).reverse()
}

/// A single-precision bit pattern denotes a finite number.
pub open spec fn f32_bits_finite(bits: u32) -> bool {
    (bits >> 23u32) & 0xffu32 != 0xffu32
}

pub open spec fn hint_bits(hint: Option<u32>) -> u32 {
    match hint {
        Some(bits) => bits,
        None => ABSENT_HINT_BITS,
    }
}

pub open spec fn hint_from_bits(bits: u32) -> Option<u32> {
    if f32_bits_finite(bits) {
        Some(bits)
    } else {
        None
    }
}

/// Audio metadata accepted by the decoder.
pub open spec fn audio_metadata_ok(channels: u8, sample_rate: u32, frame_duration_ms: u16) -> bool {
    &&& channels == 1
    &&& 8_000 <= sample_rate <= 48_000
    &&& 5 <= frame_duration_ms <= 100
}

/// The exact byte image of a packet.
pub open spec fn encoding_of(p: MediaPacketModel) -> Seq<u8> {
    magic() + seq![WIRE_VERSION, p.kind.wire_byte(), 0u8, 0u8] + spec_u64_to_le_bytes(p.sequence)
        + spec_u64_to_le_bytes(p.media_time_us) + id_be_bytes(
        match p.generation_id {
            Some(g) => g,
            None => 0,
        },
    ) + spec_u32_to_le_bytes(p.sample_rate) + spec_u16_to_le_bytes(p.frame_duration_ms) + seq![
        p.channels,
        0u8,
    ] + spec_u32_to_le_bytes(hint_bits(p.client_speech_probability)) + spec_u32_to_le_bytes(
        hint_bits(p.client_output_level),
    ) + spec_u32_to_le_bytes(hint_bits(p.client_echo_probability)) + p.pcm
}

pub open spec fn le_u16_at(b: Seq<u8>, off: int) -> u16 {
    spec_u16_from_le_bytes(b.subrange(off, off + 2))
}

pub open spec fn le_u32_at(b: Seq<u8>, off: int) -> u32 {
    spec_u32_from_le_bytes(b.subrange(off, off + 4))
}

pub open spec fn le_u64_at(b: Seq<u8>, off: int) -> u64 {
    spec_u64_from_le_bytes(b.subrange(off, off + 8))
}

pub open spec fn id_at(b: Seq<u8>, off: int) -> u128 {
    spec_u128_from_le_bytes(b.subrange(off, off + 16).reverse())
}

pub open spec fn kind_from_byte(b: u8) -> MediaKind {
    if b == 1 {
        MediaKind::InputAudio
    } else {
        MediaKind::OutputAudio
    }
}

/// The packet that a well-formed byte sequence denotes.
pub open spec fn decoded_model(b: Seq<u8>) -> MediaPacketModel {
    let generation = id_at(b, 24);
    MediaPacketModel {
        kind: kind_from_byte(b[5]),
        sequence: le_u64_at(b, 8),
        media_time_us: le_u64_at(b, 16),
        generation_id: if generation == 0 {
            None
        } else {
            Some(generation)
        },
        pcm: b.subrange(HEADER_LEN as int, b.len() as int),
        sample_rate: le_u32_at(b, 40),
        channels: b[46],
        frame_duration_ms: le_u16_at(b, 44),
        client_speech_probability: hint_from_bits(le_u32_at(b, 48)),
        client_output_level: hint_from_bits(le_u32_at(b, 52)),
        client_echo_probability: hint_from_bits(le_u32_at(b, 56)),
    }
}

/// What the decoder answers for a byte sequence, checks in order.
pub open spec fn decode_result(b: Seq<u8>) -> Result<MediaPacketModel, MediaPacketError> {
    if b.len() < HEADER_LEN {
        Err(MediaPacketError::Truncated)
    } else if b.subrange(0, 4) != magic() {
        Err(MediaPacketError::InvalidMagic)
    } else if b[4] != WIRE_VERSION {
        Err(MediaPacketError::UnsupportedVersion(b[4]))
    } else if b[5] != 1 && b[5] != 2 {
        Err(MediaPacketError::InvalidKind(b[5]))
    } else if b.len() == HEADER_LEN {
        Err(MediaPacketError::MissingPayload)
    } else if !audio_metadata_ok(b[46], le_u32_at(b, 40), le_u16_at(b, 44)) {
        Err(MediaPacketError::InvalidAudioMetadata)
    } else {
        Ok(decoded_model(b))
    }
}

/// Reads a little-endian u16 at `offset`.
pub fn read_u16(encoded: &[u8], offset: usize) -> (v: u16)
    requires
        offset + 2 <= encoded.len(),
    ensures
        v == le_u16_at(encoded@, offset as int),
{
    u16_from_le_bytes(&encoded[offset..offset + 2])
}

/// Reads a little-endian u32 at `offset`.
pub fn read_u32(encoded: &[u8], offset: usize) -> (v: u32)
    requires
        offset + 4 <= encoded.len(),
    ensures
        v == le_u32_at(encoded@, offset as int),
{
    u32_from_le_bytes(&encoded[offset..offset + 4])
}

/// Reads a little-endian u64 at `offset`.
pub fn read_u64(encoded: &[u8], offset: usize) -> (v: u64)
    requires
        offset + 8 <= encoded.len(),
    ensures
        v == le_u64_at(encoded@, offset as int),
{
    u64_from_le_bytes(&encoded[offset..offset + 8])
}


/// Appends every byte of `src` to `dst`.
pub fn append_bytes(dst: &mut Vec<u8>, src: &[u8])
    ensures
        final(dst)@ == old(dst)@ + src@,
{
    let ghost start = dst@;
    let mut i: usize = 0;
    while i < src.len()
        invariant
            i <= src@.len(),
            dst@ == start + src@.subrange(0, i as int),
        decreases src@.len() - i,
    {
        dst.push(src[i]);
        i = i + 1;
    }
    assert(src@.subrange(0, src@.len() as int) =~= src@);
}

fn push_id_be(dst: &mut Vec<u8>, id: u128)
    ensures
        final(dst)@ == old(dst)@ + id_be_bytes(id),
{
    let le = u128_to_le_bytes(id);
    let ghost start = dst@;
    let mut i: usize = 16;
    while i > 0
        invariant
            i <= 16,
            le@.len() == 16,
            le@ == spec_u128_to_le_bytes(id),
            dst@ == start + spec_u128_to_le_bytes(id).reverse().subrange(0, 16 - i),
        decreases i,
    {
        i = i - 1;
        dst.push(le[i]);
        assert(dst@ =~= start + spec_u128_to_le_bytes(id).reverse().subrange(0, 16 - i));
    }
    assert(spec_u128_to_le_bytes(id).reverse().subrange(0, 16) =~= spec_u128_to_le_bytes(id).reverse());
}

fn read_id_be(encoded: &[u8], offset: usize) -> (v: u128)
    requires
        offset + 16 <= encoded.len(),
    ensures
        v == id_at(encoded@, offset as int),
{
    let mut rev: Vec<u8> = Vec::new();
    let mut i: usize = 16;
    while i > 0
        invariant
            i <= 16,
            offset + 16 <= encoded.len(),
            rev@ == encoded@.subrange(offset as int, offset + 16).reverse().subrange(0, 16 - i),
        decreases i,
    {
        i = i - 1;
        rev.push(encoded[offset + i]);
        assert(rev@ =~= encoded@.subrange(offset as int, offset + 16).reverse().subrange(0, 16 - i));
    }
    assert(rev@ =~= encoded@.subrange(offset as int, offset + 16).reverse());
    u128_from_le_bytes(rev.as_slice())
}

fn hint_to_bits(hint: Option<u32>) -> (bits: u32)
    ensures
        bits == hint_bits(hint),
{
    match hint {
        Some(bits) => bits,
        None => ABSENT_HINT_BITS,
    }
}

/// Reads an optional client hint: the bit pattern when it denotes a finite number.
pub fn read_optional_hint(encoded: &[u8], offset: usize) -> (v: Option<u32>)
    requires
        offset + 4 <= encoded.len(),
    ensures
        v == hint_from_bits(le_u32_at(encoded@, offset as int)),
{
    let bits = read_u32(encoded, offset);
    if (bits >> 23u32) & 0xffu32 != 0xffu32 {
        Some(bits)
    } else {
        None
    }
}

impl MediaPacket {
    /// Serializes the packet: header then PCM payload.
    pub fn encode(&self) -> (encoded: Vec<u8>)
        ensures
            encoded@ == encoding_of(self@),
    {
        let mut encoded: Vec<u8> = Vec::new();
        encoded.push(79u8);
        encoded.push(76u8);
        encoded.push(73u8);
        encoded.push(86u8);
        encoded.push(WIRE_VERSION);
        encoded.push(self.kind.to_wire());
        encoded.push(0u8);
        encoded.push(0u8);
        append_bytes(&mut encoded, u64_to_le_bytes(self.sequence).as_slice());
        append_bytes(&mut encoded, u64_to_le_bytes(self.media_time_us).as_slice());
        let generation: u128 = match self.generation_id {
            Some(g) => g,
            None => 0,
        };
        push_id_be(&mut encoded, generation);
        append_bytes(&mut encoded, u32_to_le_bytes(self.audio.sample_rate).as_slice());
        append_bytes(&mut encoded, u16_to_le_bytes(self.audio.frame_duration_ms).as_slice());
        encoded.push(self.audio.channels);
        encoded.push(0u8);
        append_bytes(
            &mut encoded,
            u32_to_le_bytes(hint_to_bits(self.audio.client_speech_probability)).as_slice(),
        );
        append_bytes(
            &mut encoded,
            u32_to_le_bytes(hint_to_bits(self.audio.client_output_level)).as_slice(),
        );
        append_bytes(
            &mut encoded,
            u32_to_le_bytes(hint_to_bits(self.audio.client_echo_probability)).as_slice(),
        );
        append_bytes(&mut encoded, self.audio.pcm.as_slice());
        assert(encoded@ =~= encoding_of(self@));
        encoded
    }

    /// Decodes one packet, rejecting a truncated header, a bad magic, version
    /// or kind, a missing payload, or unsupported audio metadata.
    pub fn decode(encoded: &[u8]) -> (res: Result<MediaPacket, MediaPacketError>)
        ensures
            match res {
                Ok(p) => decode_result(encoded@) == Ok::<MediaPacketModel, MediaPacketError>(p@),
                Err(e) => decode_result(encoded@) == Err::<MediaPacketModel, MediaPacketError>(e),
            },
    {
        if encoded.len() < HEADER_LEN {
            return Err(MediaPacketError::Truncated);
        }
        if encoded[0] != 79u8 || encoded[1] != 76u8 || encoded[2] != 73u8 || encoded[3] != 86u8 {
            assert(encoded@.subrange(0, 4) != magic()) by {
                if encoded@.subrange(0, 4) == magic() {
                    assert(encoded@.subrange(0, 4)[0] == encoded@[0]);
                    assert(encoded@.subrange(0, 4)[1] == encoded@[1]);
                    assert(encoded@.subrange(0, 4)[2] == encoded@[2]);
                    assert(encoded@.subrange(0, 4)[3] == encoded@[3]);
                }
            }
            return Err(MediaPacketError::InvalidMagic);
        }
        assert(encoded@.subrange(0, 4) =~= magic());
        if encoded[4] != WIRE_VERSION {
            return Err(MediaPacketError::UnsupportedVersion(encoded[4]));
        }
        let kind = if encoded[5] == 1u8 {
            MediaKind::InputAudio
        } else if encoded[5] == 2u8 {
            MediaKind::OutputAudio
        } else {
            return Err(MediaPacketError::InvalidKind(encoded[5]));
        };
        let sequence = read_u64(encoded, 8);
        let media_time_us = read_u64(encoded, 16);
        let generation = read_id_be(encoded, 24);
        let generation_id = if generation == 0 {
            None
        } else {
            Some(generation)
        };
        let sample_rate = read_u32(encoded, 40);
        let frame_duration_ms = read_u16(encoded, 44);
        let channels = encoded[46];
        if encoded.len() == HEADER_LEN {
            return Err(MediaPacketError::MissingPayload);
        }
        if channels != 1 || sample_rate < 8_000 || sample_rate > 48_000 || frame_duration_ms < 5
            || frame_duration_ms > 100 {
            return Err(MediaPacketError::InvalidAudioMetadata);
        }
        let mut pcm: Vec<u8> = Vec::new();
        append_bytes(&mut pcm, &encoded[HEADER_LEN..encoded.len()]);
        let packet = MediaPacket {
            kind,
            sequence,
            media_time_us,
            generation_id,
            audio: PcmAudioFrame {
                pcm,
                sample_rate,
                channels,
                frame_duration_ms,
                client_speech_probability: read_optional_hint(encoded, 48),
                client_output_level: read_optional_hint(encoded, 52),
                client_echo_probability: read_optional_hint(encoded, 56),
            },
        };
        assert(packet@ == decoded_model(encoded@));
        Ok(packet)
    }
}


/// A packet that the decoder gives back exactly: a non-empty payload,
/// accepted audio metadata, no all-zero generation id and finite hints.
pub open spec fn packet_round_trips(p: MediaPacketModel) -> bool {
    &&& p.pcm.len() > 0
    &&& audio_metadata_ok(p.channels, p.sample_rate, p.frame_duration_ms)
    &&& p.generation_id != Some(0u128)
    &&& (p.client_speech_probability matches Some(b) ==> f32_bits_finite(b))
    &&& (p.client_output_level matches Some(b) ==> f32_bits_finite(b))
    &&& (p.client_echo_probability matches Some(b) ==> f32_bits_finite(b))
}

proof fn lemma_absent_hint_not_finite()
    ensures
        !f32_bits_finite(ABSENT_HINT_BITS),
{
    assert((0x7fc0_0000u32 >> 23u32) & 0xffu32 == 0xffu32) by (bit_vector);
}

proof fn lemma_hint_round_trip(h: Option<u32>)
    requires
        h matches Some(b) ==> f32_bits_finite(b),
    ensures
        hint_from_bits(hint_bits(h)) == h,
{
    lemma_absent_hint_not_finite();
}

/// Decoding the encoding of a packet gives the packet back, for every packet
/// the wire can carry unchanged.
pub proof fn lemma_decode_inverts_encode(p: MediaPacketModel)
    requires
        packet_round_trips(p),
    ensures
        decode_result(encoding_of(p)) == Ok::<MediaPacketModel, MediaPacketError>(p),
{
    lemma_auto_spec_u16_to_from_le_bytes();
    lemma_auto_spec_u32_to_from_le_bytes();
    lemma_auto_spec_u64_to_from_le_bytes();
    lemma_auto_spec_u128_to_from_le_bytes();
    let g: u128 = match p.generation_id {
        Some(g) => g,
        None => 0,
    };
    let b = encoding_of(p);
    let id = id_be_bytes(g);
    assert(id.len() == 16);
    assert(b.len() == HEADER_LEN + p.pcm.len());
    assert(b.subrange(0, 4) =~= magic());
    assert(b[4] == WIRE_VERSION);
    assert(b[5] == p.kind.wire_byte());
    assert(b.subrange(8, 16) =~= spec_u64_to_le_bytes(p.sequence));
    assert(b.subrange(16, 24) =~= spec_u64_to_le_bytes(p.media_time_us));
    assert(b.subrange(24, 40) =~= id);
    assert(id.reverse() =~= spec_u128_to_le_bytes(g));
    assert(b.subrange(40, 44) =~= spec_u32_to_le_bytes(p.sample_rate));
    assert(b.subrange(44, 46) =~= spec_u16_to_le_bytes(p.frame_duration_ms));
    assert(b[46] == p.channels);
    assert(b.subrange(48, 52) =~= spec_u32_to_le_bytes(hint_bits(p.client_speech_probability)));
    assert(b.subrange(52, 56) =~= spec_u32_to_le_bytes(hint_bits(p.client_output_level)));
    assert(b.subrange(56, 60) =~= spec_u32_to_le_bytes(hint_bits(p.client_echo_probability)));
    assert(b.subrange(HEADER_LEN as int, b.len() as int) =~= p.pcm);
    lemma_hint_round_trip(p.client_speech_probability);
    lemma_hint_round_trip(p.client_output_level);
    lemma_hint_round_trip(p.client_echo_probability);
    assert(decoded_model(b) == p);
}

} // verus!
