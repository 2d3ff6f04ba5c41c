//! The integer checks an input audio frame passes before acoustic analysis:
//! supported format, and a PCM payload of exactly one frame's length.

use vstd::prelude::*;
use crate::media::PcmAudioFrame;
use crate::text::{decimal, decimal_chars, extend_chars, extend_str, string_of};

verus! {

/// Why a frame's format is refused, if it is: mono only, 8 to 48 kHz, 5 to
/// 100 ms frames.
pub open spec fn format_error(channels: u8, sample_rate: u32, frame_ms: u16) -> Option<Seq<char>> {
    if channels != 1 {
        Some("only mono input is supported"@)
    } else if !(8_000 <= sample_rate <= 48_000) {
        Some("input sample rate must be between 8 kHz and 48 kHz"@)
    } else if !(5 <= frame_ms <= 100) {
        Some("frame duration must be between 5 ms and 100 ms"@)
    } else {
        None
    }
}

/// Checks that a frame is mono, 8 to 48 kHz, and 5 to 100 ms long.
pub fn validate_frame(frame: &PcmAudioFrame) -> (r: Result<(), String>)
    ensures
        match (r, format_error(frame.channels, frame.sample_rate, frame.frame_duration_ms)) {
            (Ok(()), None) => true,
            (Err(e), Some(m)) => e@ == m,
            _ => false,
        },
{
    if frame.channels != 1 {
        return Err("only mono input is supported".to_owned());
    }
    if !(8_000 <= frame.sample_rate && frame.sample_rate <= 48_000) {
        return Err("input sample rate must be between 8 kHz and 48 kHz".to_owned());
    }
    if !(5 <= frame.frame_duration_ms && frame.frame_duration_ms <= 100) {
        return Err("frame duration must be between 5 ms and 100 ms".to_owned());
    }
    Ok(())
}

/// Bytes of 16-bit PCM in one frame: rate × duration × channels × 2 / 1000.
pub open spec fn pcm_bytes_of(sample_rate: u32, frame_ms: u16, channels: u8) -> int {
    sample_rate * frame_ms * channels * 2 / 1000
}

/// The PCM length a frame's metadata announces (0 when it would not fit
/// in `usize`).
pub fn expected_pcm_bytes(frame: &PcmAudioFrame) -> (n: usize)
    ensures
        n == if pcm_bytes_of(frame.sample_rate, frame.frame_duration_ms, frame.channels) <= usize::MAX {
            pcm_bytes_of(frame.sample_rate, frame.frame_duration_ms, frame.channels)
        } else {
            0
        },
{
    let rate = frame.sample_rate as u64;
    let ms = frame.frame_duration_ms as u64;
    let ch = frame.channels as u64;
    assert(rate * ms <= 0xffff_ffff * 0xffff) by (nonlinear_arith)
        requires
            rate <= 0xffff_ffff,
            ms <= 0xffff,
    ;
    assert(rate * ms * ch <= 0xffff_ffff * 0xffff * 0xff) by (nonlinear_arith)
        requires
            rate * ms <= 0xffff_ffff * 0xffff,
            ch <= 0xff,
    ;
    let total = rate * ms * ch * 2 / 1_000;
    if total <= usize::MAX as u64 {
        total as usize
    } else {
        0
    }
}

/// The message for a payload of the wrong length.
pub open spec fn length_mismatch(expected: nat, received: nat) -> Seq<char> {
    "PCM length mismatch: expected "@ + decimal(expected) + " bytes, received "@ + decimal(received)
}

/// The checks a frame passes before analysis: its format, then a payload of
/// exactly the announced length.
pub fn check_analysis_frame(frame: &PcmAudioFrame) -> (r: Result<(), String>)
    ensures
        match format_error(frame.channels, frame.sample_rate, frame.frame_duration_ms) {
            Some(m) => r matches Err(e) && e@ == m,
            None => {
                let expected = pcm_bytes_of(frame.sample_rate, frame.frame_duration_ms, frame.channels);
                if frame.pcm@.len() == expected {
                    r is Ok
                } else {
                    r matches Err(e) && e@ == length_mismatch(expected as nat, frame.pcm@.len())
                }
            },
        },
{
    match validate_frame(frame) {
        Err(e) => return Err(e),
        Ok(()) => {},
    }
    let expected = expected_pcm_bytes(frame);
    assert(pcm_bytes_of(frame.sample_rate, frame.frame_duration_ms, frame.channels) <= 48_000 * 100 * 2 / 1000) by (nonlinear_arith)
        requires
            frame.sample_rate <= 48_000,
            frame.frame_duration_ms <= 100,
            frame.channels == 1,
    ;
    if frame.pcm.len() != expected {
        let mut v: Vec<char> = Vec::new();
        extend_str(&mut v, "PCM length mismatch: expected ");
        let a = decimal_chars(expected as u64);
        extend_chars(&mut v, &a);
        extend_str(&mut v, " bytes, received ");
        let b = decimal_chars(frame.pcm.len() as u64);
        extend_chars(&mut v, &b);
        return Err(string_of(&v));
    }
    Ok(())
}

} // verus!
