//! RIFF/WAVE framing of mono PCM16 audio: the container written for the
//! speech-recognition upload and the one read back from the local TTS engine.

use crate::media::{append_bytes, le_u32_at};
use vstd::bytes::*;
use vstd::prelude::*;

verus! {

broadcast use vstd::seq_lib::group_seq_properties;

pub open spec fn tag(a: u8, b: u8, c: u8, d: u8) -> Seq<u8> {
    seq![a, b, c, d]
}

/// `RIFF`
pub open spec fn riff_tag() -> Seq<u8> {
    tag(82, 73, 70, 70)
}

/// `WAVE`
pub open spec fn wave_tag() -> Seq<u8> {
    tag(87, 65, 86, 69)
}

/// `fmt `
pub open spec fn fmt_tag() -> Seq<u8> {
    tag(102, 109, 116, 32)
}

/// `data`
pub open spec fn data_tag() -> Seq<u8> {
    tag(100, 97, 116, 97)
}

/// The 44-byte canonical header followed by the samples.
pub open spec fn wav_image(pcm: Seq<u8>, sample_rate: u32) -> Seq<u8> {
    riff_tag() + spec_u32_to_le_bytes((pcm.len() + 36) as u32) + wave_tag() + fmt_tag()
        + spec_u32_to_le_bytes(16) + spec_u16_to_le_bytes(1) + spec_u16_to_le_bytes(1)
        + spec_u32_to_le_bytes(sample_rate) + spec_u32_to_le_bytes((sample_rate * 2) as u32)
        + spec_u16_to_le_bytes(2) + spec_u16_to_le_bytes(16) + data_tag() + spec_u32_to_le_bytes(
        pcm.len() as u32,
    ) + pcm
}

/// Length limits under which a WAV header can describe the payload.
pub open spec fn wav_fits(pcm_len: int, sample_rate: u32) -> bool {
    pcm_len + 36 <= u32::MAX && sample_rate * 2 <= u32::MAX
}

fn push_tag(dst: &mut Vec<u8>, a: u8, b: u8, c: u8, d: u8)
    ensures
        final(dst)@ == old(dst)@ + tag(a, b, c, d),
{
    dst.push(a);
    dst.push(b);
    dst.push(c);
    dst.push(d);
    assert(dst@ =~= old(dst)@ + tag(a, b, c, d));
}

/// Wraps mono PCM16 samples in a WAV container.
pub fn pcm_to_wav(pcm: &[u8], sample_rate: u32) -> (res: Result<Vec<u8>, String>)
    ensures
        match res {
            Ok(w) => wav_fits(pcm@.len() as int, sample_rate) && w@ == wav_image(pcm@, sample_rate),
            Err(e) => !wav_fits(pcm@.len() as int, sample_rate) && (if pcm@.len() > u32::MAX {
                e@ == "captured audio is too large"@
            } else if pcm@.len() + 36 > u32::MAX {
                e@ == "WAV length overflow"@
            } else {
                e@ == "WAV byte rate overflow"@
            }),
        },
{
    if pcm.len() > 0xffff_ffffusize {
        return Err("captured audio is too large".to_owned());
    }
    let data_length = pcm.len() as u32;
    if data_length > 0xffff_ffffu32 - 36 {
        return Err("WAV length overflow".to_owned());
    }
    let riff_length = data_length + 36;
    if sample_rate > 0xffff_ffffu32 / 2 {
        return Err("WAV byte rate overflow".to_owned());
    }
    let byte_rate = sample_rate * 2;
    let mut wav: Vec<u8> = Vec::new();
    push_tag(&mut wav, 82, 73, 70, 70);
    append_bytes(&mut wav, u32_to_le_bytes(riff_length).as_slice());
    push_tag(&mut wav, 87, 65, 86, 69);
    push_tag(&mut wav, 102, 109, 116, 32);
    append_bytes(&mut wav, u32_to_le_bytes(16).as_slice());
    append_bytes(&mut wav, u16_to_le_bytes(1).as_slice());
    append_bytes(&mut wav, u16_to_le_bytes(1).as_slice());
    append_bytes(&mut wav, u32_to_le_bytes(sample_rate).as_slice());
    append_bytes(&mut wav, u32_to_le_bytes(byte_rate).as_slice());
    append_bytes(&mut wav, u16_to_le_bytes(2).as_slice());
    append_bytes(&mut wav, u16_to_le_bytes(16).as_slice());
    push_tag(&mut wav, 100, 97, 116, 97);
    append_bytes(&mut wav, u32_to_le_bytes(data_length).as_slice());
    append_bytes(&mut wav, pcm);
    assert(wav@ =~= wav_image(pcm@, sample_rate));
    Ok(wav)
}

/// Walks the RIFF chunks from `i`: the payload of the first `data` chunk
/// (cut at the end of the file) and the rate of the last `fmt ` chunk seen
/// before it, or nothing when no `data` chunk header fits.
pub open spec fn scan_chunks(w: Seq<u8>, i: int, rate: u32) -> Option<(Seq<u8>, u32)>
    decreases w.len() - i,
{
    if i < 0 || i + 8 > w.len() {
        None
    } else {
        let size = le_u32_at(w, i + 4) as int;
        let id = w.subrange(i, i + 4);
        let rate2 = if id == fmt_tag() && i + 24 <= w.len() {
            le_u32_at(w, i + 12)
        } else {
            rate
        };
        if id == data_tag() {
            let end = if i + 8 + size < w.len() {
                i + 8 + size
            } else {
                w.len() as int
            };
            Some((w.subrange(i + 8, end), rate2))
        } else {
            let next = i + 8 + size + (if size % 2 == 1 {
                1int
            } else {
                0int
            });
            if next + 8 > w.len() {
                None
            } else {
                scan_chunks(w, next, rate2)
            }
        }
    }
}

/// A buffer that starts like a WAV file.
pub open spec fn wav_header_ok(w: Seq<u8>) -> bool {
    w.len() >= 44 && w.subrange(0, 4) == riff_tag() && w.subrange(8, 12) == wave_tag()
}

fn tag_at(w: &[u8], i: usize, a: u8, b: u8, c: u8, d: u8) -> (r: bool)
    requires
        i + 4 <= w.len(),
    ensures
        r == (w@.subrange(i as int, i + 4) == tag(a, b, c, d)),
{
    let r = w[i] == a && w[i + 1] == b && w[i + 2] == c && w[i + 3] == d;
    if r {
        assert(w@.subrange(i as int, i + 4) =~= tag(a, b, c, d));
    } else {
        proof {
            if w@.subrange(i as int, i + 4) == tag(a, b, c, d) {
                assert(w@.subrange(i as int, i + 4)[0] == a);
                assert(w@.subrange(i as int, i + 4)[1] == b);
                assert(w@.subrange(i as int, i + 4)[2] == c);
                assert(w@.subrange(i as int, i + 4)[3] == d);
            }
        }
    }
    r
}

/// Extracts the PCM payload and sample rate of a WAV file (22050 Hz when no
/// `fmt ` chunk precedes the data).
pub fn wav_to_pcm_s16le(wav: &[u8]) -> (res: Result<(Vec<u8>, u32), String>)
    ensures
        match res {
            Ok((pcm, rate)) => wav_header_ok(wav@) && scan_chunks(wav@, 12, 22050) == Some(
                (pcm@, rate),
            ),
            Err(e) => if !wav_header_ok(wav@) {
                e@ == "not a wav file"@
            } else {
                scan_chunks(wav@, 12, 22050) is None && e@ == "wav data chunk missing"@
            },
        },
{
    if wav.len() < 44 || !tag_at(wav, 0, 82, 73, 70, 70) || !tag_at(wav, 8, 87, 65, 86, 69) {
        return Err("not a wav file".to_owned());
    }
    let mut i: usize = 12;
    let mut sample_rate: u32 = 22050;
    while i <= wav.len() && wav.len() - i >= 8
        invariant
            wav_header_ok(wav@),
            scan_chunks(wav@, 12, 22050) == scan_chunks(wav@, i as int, sample_rate),
        decreases wav@.len() - i,
    {
        let size = crate::media::read_u32(wav, i + 4);
        let is_fmt = tag_at(wav, i, 102, 109, 116, 32);
        if is_fmt && wav.len() - i >= 24 {
            sample_rate = crate::media::read_u32(wav, i + 12);
        }
        if tag_at(wav, i, 100, 97, 116, 97) {
            let start = i + 8;
            let end = if (size as usize) < wav.len() - start {
                start + size as usize
            } else {
                wav.len()
            };
            let mut pcm: Vec<u8> = Vec::new();
            append_bytes(&mut pcm, &wav[start..end]);
            return Ok((pcm, sample_rate));
        }
        let pad: usize = if size % 2 == 1 {
            1
        } else {
            0
        };
        if (size as usize) >= wav.len() - i - 8 {
            // the next chunk header cannot fit
            assert(scan_chunks(wav@, i as int, sample_rate) is None) by {
                let next = i + 8 + size + pad;
                assert(scan_chunks(wav@, i as int, sample_rate) == scan_chunks(wav@, next, sample_rate));
            }
            return Err("wav data chunk missing".to_owned());
        }
        i = i + 8 + size as usize + pad;
    }
    Err("wav data chunk missing".to_owned())
}

/// Reading back the container written for a payload gives that payload and rate.
pub proof fn lemma_wav_round_trip(pcm: Seq<u8>, sample_rate: u32)
    requires
        wav_fits(pcm.len() as int, sample_rate),
    ensures
        wav_header_ok(wav_image(pcm, sample_rate)),
        scan_chunks(wav_image(pcm, sample_rate), 12, 22050) == Some((pcm, sample_rate)),
{
    lemma_auto_spec_u16_to_from_le_bytes();
    lemma_auto_spec_u32_to_from_le_bytes();
    let w = wav_image(pcm, sample_rate);
    assert(w.len() == 44 + pcm.len());
    assert(w.subrange(0, 4) =~= riff_tag());
    assert(w.subrange(8, 12) =~= wave_tag());
    assert(w.subrange(12, 16) =~= fmt_tag());
    assert(w.subrange(16, 20) =~= spec_u32_to_le_bytes(16));
    assert(w.subrange(24, 28) =~= spec_u32_to_le_bytes(sample_rate));
    assert(w.subrange(36, 40) =~= data_tag());
    assert(w.subrange(40, 44) =~= spec_u32_to_le_bytes(pcm.len() as u32));
    assert(fmt_tag() != data_tag()) by {
        assert(fmt_tag()[0] != data_tag()[0]);
    }
    assert(scan_chunks(w, 12, 22050) == scan_chunks(w, 36, sample_rate));
    assert(w.subrange(44, 44 + pcm.len() as int) =~= pcm);
}

/// The little-endian 16-bit field at `off`.
pub open spec fn le_u16_at(b: Seq<u8>, off: int) -> u16 {
    spec_u16_from_le_bytes(b.subrange(off, off + 2))
}

/// The header written for a payload describes it as what it is: linear PCM
/// (format 1), one channel, 16 bits per sample, at the given rate, with a
/// block align of channels × bits / 8 and a byte rate of rate × block
/// align; the data chunk and the RIFF size count the payload.
pub proof fn lemma_wav_header_describes_pcm16(pcm: Seq<u8>, sample_rate: u32)
    requires
        wav_fits(pcm.len() as int, sample_rate),
    ensures
        ({
            let w = wav_image(pcm, sample_rate);
            &&& w.len() == 44 + pcm.len()
            &&& le_u16_at(w, 20) == 1
            &&& le_u16_at(w, 22) == 1
            &&& le_u32_at(w, 24) == sample_rate
            &&& le_u16_at(w, 34) == 16
            &&& le_u16_at(w, 32) == le_u16_at(w, 22) * le_u16_at(w, 34) / 8
            &&& le_u32_at(w, 28) == le_u32_at(w, 24) * le_u16_at(w, 32)
            &&& le_u32_at(w, 40) == pcm.len()
            &&& le_u32_at(w, 4) == pcm.len() + 36
        }),
{
    lemma_auto_spec_u16_to_from_le_bytes();
    lemma_auto_spec_u32_to_from_le_bytes();
    let w = wav_image(pcm, sample_rate);
    assert(w.subrange(4, 8) =~= spec_u32_to_le_bytes((pcm.len() + 36) as u32));
    assert(w.subrange(20, 22) =~= spec_u16_to_le_bytes(1));
    assert(w.subrange(22, 24) =~= spec_u16_to_le_bytes(1));
    assert(w.subrange(24, 28) =~= spec_u32_to_le_bytes(sample_rate));
    assert(w.subrange(28, 32) =~= spec_u32_to_le_bytes((sample_rate * 2) as u32));
    assert(w.subrange(32, 34) =~= spec_u16_to_le_bytes(2));
    assert(w.subrange(34, 36) =~= spec_u16_to_le_bytes(16));
    assert(w.subrange(40, 44) =~= spec_u32_to_le_bytes(pcm.len() as u32));
}

} // verus!
