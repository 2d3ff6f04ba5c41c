//! Streaming speech pipeline pieces: a segmenter that cuts a token stream
//! into speakable clauses as early as possible, and a framer that cuts PCM
//! bytes into fixed 20 ms frames.

use vstd::prelude::*;
use crate::text::{chars_of, is_whitespace, is_ws, opt_chars, slice_chars, string_of, trim, trim_chars};

verus! {

broadcast use vstd::seq_lib::group_seq_properties;

/// Output sample rate of the cascade's speech synthesis.
pub const OUTPUT_SAMPLE_RATE: u32 = 24_000;

/// Duration of one output frame, in milliseconds.
pub const FRAME_DURATION_MS: u16 = 20;

/// Characters that may close a spoken clause.
pub open spec fn is_clause_end(c: char) -> bool {
    c == '.' || c == '!' || c == '?' || c == ';' || c == ':' || c == '\n'
}

/// The scan stops at character `k`: a clause end from the 18th character
/// on, or the 72nd character.
pub open spec fn stops_at(s: Seq<char>, k: int) -> bool {
    (k >= 17 && is_clause_end(s[k])) || k >= 71
}

pub open spec fn is_first_stop(s: Seq<char>, k: int) -> bool {
    &&& 0 <= k < s.len()
    &&& stops_at(s, k)
    &&& forall|j: int| 0 <= j < k ==> !stops_at(s, j)
}

/// `j` is the last whitespace at or after the 40th character, up to `k`.
pub open spec fn is_fallback(s: Seq<char>, k: int, j: int) -> bool {
    &&& 39 <= j <= k
    &&& is_ws(s[j])
    &&& forall|m: int| j < m <= k ==> !is_ws(#[trigger] s[m])
}

/// Where the next speakable segment ends (a count of characters): at the
/// first clause end from the 18th character on; else, by the 72nd
/// character, after the last whitespace from the 40th character on, or
/// right after the 72nd character.
pub open spec fn boundary(s: Seq<char>) -> Option<int> {
    if exists|k: int| is_first_stop(s, k) {
        let k = choose|k: int| is_first_stop(s, k);
        if k >= 17 && is_clause_end(s[k]) {
            Some(k + 1)
        } else if exists|j: int| is_fallback(s, k, j) {
            Some((choose|j: int| is_fallback(s, k, j)) + 1)
        } else {
            Some(k + 1)
        }
    } else {
        None
    }
}

/// The segments a buffer yields (trimmed, empty ones dropped) and what
/// stays buffered.
pub open spec fn segments(buf: Seq<char>) -> (Seq<Seq<char>>, Seq<char>)
    decreases buf.len(),
{
    match boundary(buf) {
        Some(e) => if 0 < e <= buf.len() {
            let (segs, rest) = segments(buf.skip(e));
            let seg = trim(buf.take(e));
            (if seg.len() > 0 {
                seq![seg] + segs
            } else {
                segs
            }, rest)
        } else {
            (Seq::empty(), buf)
        },
        None => (Seq::empty(), buf),
    }
}

proof fn lemma_boundary_prefix(x: Seq<char>, y: Seq<char>)
    requires
        boundary(x) is Some,
    ensures
        boundary(x + y) == boundary(x),
        0 < boundary(x).unwrap() <= x.len(),
{
    let s = x + y;
    let k = choose|k: int| is_first_stop(x, k);
    assert(is_first_stop(x, k));
    assert(s[k] == x[k]);
    assert forall|j: int| 0 <= j < k implies !stops_at(s, j) by {
        assert(s[j] == x[j]);
        assert(!stops_at(x, j));
    }
    assert(is_first_stop(s, k));
    let k2 = choose|k: int| is_first_stop(s, k);
    lemma_first_stop_unique(s, k, k2);
    if !(k >= 17 && is_clause_end(x[k])) {
        assert forall|j: int| is_fallback(x, k, j) <==> is_fallback(s, k, j) by {
            if 39 <= j <= k {
                assert(s[j] == x[j]);
                if is_fallback(x, k, j) {
                    assert forall|m: int| j < m <= k implies !is_ws(#[trigger] s[m]) by {
                        assert(s[m] == x[m]);
                        assert(!is_ws(x[m]));
                    }
                }
                if is_fallback(s, k, j) {
                    assert forall|m: int| j < m <= k implies !is_ws(#[trigger] x[m]) by {
                        assert(s[m] == x[m]);
                        assert(!is_ws(s[m]));
                    }
                }
            }
        }
        if exists|j: int| is_fallback(x, k, j) {
            let j = choose|j: int| is_fallback(x, k, j);
            let j2 = choose|j: int| is_fallback(s, k, j);
            lemma_fallback_unique(s, k, j, j2);
        }
    }
}

/// A segment is not cut inside a word when a word break is available: when
/// no clause end closes a clause in the first 72 characters (none from the
/// 18th character on) and some whitespace stands between the 40th and the
/// 72nd character, the segment ends right after the last such whitespace.
pub proof fn lemma_segment_ends_at_word_break(s: Seq<char>, w: int)
    requires
        s.len() >= 72,
        forall|k: int| 17 <= k <= 71 ==> !is_clause_end(#[trigger] s[k]),
        39 <= w <= 71,
        is_ws(s[w]),
        forall|m: int| w < m <= 71 ==> !is_ws(#[trigger] s[m]),
    ensures
        boundary(s) == Some(w + 1),
        is_ws(s[boundary(s).unwrap() - 1]),
{
    assert(stops_at(s, 71));
    assert forall|j: int| 0 <= j < 71 implies !stops_at(s, j) by {
        if j >= 17 {
            assert(!is_clause_end(s[j]));
        }
    }
    assert(is_first_stop(s, 71));
    let k = choose|k: int| is_first_stop(s, k);
    lemma_first_stop_unique(s, 71, k);
    assert(!is_clause_end(s[71]));
    assert(is_fallback(s, 71, w));
    let j = choose|j: int| is_fallback(s, 71, j);
    lemma_fallback_unique(s, 71, w, j);
}

/// With no clause end and no whitespace from the 40th character on within
/// the first 72 characters, the segment is the first 72 characters.
pub proof fn lemma_segment_cut_at_limit(s: Seq<char>)
    requires
        s.len() >= 72,
        forall|k: int| 17 <= k <= 71 ==> !is_clause_end(#[trigger] s[k]),
        forall|m: int| 39 <= m <= 71 ==> !is_ws(#[trigger] s[m]),
    ensures
        boundary(s) == Some(72int),
{
    assert(stops_at(s, 71));
    assert forall|j: int| 0 <= j < 71 implies !stops_at(s, j) by {
        if j >= 17 {
            assert(!is_clause_end(s[j]));
        }
    }
    assert(is_first_stop(s, 71));
    let k = choose|k: int| is_first_stop(s, k);
    lemma_first_stop_unique(s, 71, k);
    assert(!is_clause_end(s[71]));
    assert(!exists|j: int| is_fallback(s, 71, j));
}

/// A clause end from the 18th character on, before any other stop, ends
/// the segment right after it.
pub proof fn lemma_segment_ends_at_clause(s: Seq<char>, c: int)
    requires
        17 <= c < s.len(),
        c <= 71,
        is_clause_end(s[c]),
        forall|k: int| 17 <= k < c ==> !is_clause_end(#[trigger] s[k]),
    ensures
        boundary(s) == Some(c + 1),
{
    assert forall|j: int| 0 <= j < c implies !stops_at(s, j) by {
        if j >= 17 {
            assert(!is_clause_end(s[j]));
        }
    }
    assert(is_first_stop(s, c));
    let k = choose|k: int| is_first_stop(s, k);
    lemma_first_stop_unique(s, c, k);
}

/// Segmenting does not depend on how the answer streams in: the segments
/// of `x + y` are those of `x`, then those of what `x` left buffered
/// followed by `y`, and the same text stays buffered.
pub proof fn lemma_segments_split(x: Seq<char>, y: Seq<char>)
    ensures
        segments(x + y).0 == segments(x).0 + segments(segments(x).1 + y).0,
        segments(x + y).1 == segments(segments(x).1 + y).1,
    decreases x.len(),
{
    match boundary(x) {
        Some(e) => {
            lemma_boundary_prefix(x, y);
            lemma_segments_split(x.skip(e), y);
            assert((x + y).skip(e) =~= x.skip(e) + y);
            assert((x + y).take(e) =~= x.take(e));
            let seg = trim(x.take(e));
            let a = segments(x.skip(e)).0;
            let b = segments(segments(x.skip(e)).1 + y).0;
            if seg.len() > 0 {
                assert(seq![seg] + (a + b) =~= (seq![seg] + a) + b);
            }
        },
        None => {
            assert(Seq::<Seq<char>>::empty() + segments(x + y).0 =~= segments(x + y).0);
        },
    }
}

/// Cuts streamed answer text into segments worth speaking on their own.
#[derive(Debug, Default)]
pub struct SpeechSegmenter {
    buffer: Vec<char>,
}

impl View for SpeechSegmenter {
    type V = Seq<char>;

    closed spec fn view(&self) -> Seq<char> {
        self.buffer@
    }
}

proof fn lemma_first_stop_unique(s: Seq<char>, a: int, b: int)
    requires
        is_first_stop(s, a),
        is_first_stop(s, b),
    ensures
        a == b,
{
    if a < b {
        assert(!stops_at(s, a));
    } else if b < a {
        assert(!stops_at(s, b));
    }
}

proof fn lemma_fallback_unique(s: Seq<char>, k: int, a: int, b: int)
    requires
        is_fallback(s, k, a),
        is_fallback(s, k, b),
    ensures
        a == b,
{
    if a < b {
        assert(!is_ws(s[b]));
    } else if b < a {
        assert(!is_ws(s[a]));
    }
}

impl SpeechSegmenter {
    pub fn new() -> (s: Self)
        ensures
            s@ == Seq::<char>::empty(),
    {
        SpeechSegmenter { buffer: Vec::new() }
    }

    /// Where the next segment of the buffer ends, if one is complete.
    pub fn next_boundary(&self) -> (r: Option<usize>)
        ensures
            match r {
                Some(e) => boundary(self@) == Some(e as int),
                None => boundary(self@) is None,
            },
    {
        let mut fallback: Option<usize> = None;
        let mut k: usize = 0;
        while k < self.buffer.len()
            invariant
                k <= self.buffer@.len(),
                forall|j: int| 0 <= j < k ==> !stops_at(self.buffer@, j),
                match fallback {
                    Some(j) => 0 < j <= k && is_fallback(self.buffer@, k - 1, j - 1),
                    None => forall|m: int| 39 <= m < k ==> !is_ws(#[trigger] self.buffer@[m]),
                },
            decreases self.buffer@.len() - k,
        {
            let c = self.buffer[k];
            let end = k + 1;
            if k >= 17 && (c == '.' || c == '!' || c == '?' || c == ';' || c == ':' || c == '\n') {
                proof {
                    assert(is_first_stop(self.buffer@, k as int));
                    let f = choose|x: int| is_first_stop(self.buffer@, x);
                    lemma_first_stop_unique(self.buffer@, f, k as int);
                    assert(is_clause_end(self.buffer@[k as int]));
                    assert(boundary(self.buffer@) == Some(end as int));
                    assert(boundary(self@) == Some(end as int));
                }
                return Some(end);
            }
            if k >= 39 && is_whitespace(c) {
                fallback = Some(end);
            }
            if k >= 71 {
                proof {
                    assert(is_first_stop(self.buffer@, k as int));
                    let f = choose|x: int| is_first_stop(self.buffer@, x);
                    lemma_first_stop_unique(self.buffer@, f, k as int);
                }
                match fallback {
                    Some(j) => {
                        proof {
                            assert(is_fallback(self.buffer@, k as int, j - 1));
                            let g = choose|x: int| is_fallback(self.buffer@, k as int, x);
                            lemma_fallback_unique(self.buffer@, k as int, g, j - 1);
                        }
                        return Some(j);
                    },
                    None => {
                        proof {
                            assert forall|j: int| !is_fallback(self.buffer@, k as int, j) by {
                                if is_fallback(self.buffer@, k as int, j) {
                                    assert(is_ws(self.buffer@[j]));
                                }
                            }
                        }
                        return Some(end);
                    },
                }
            }
            proof {
                match fallback {
                    Some(j) => {
                        if j == k + 1 {
                        } else {
                            assert(!is_ws(self.buffer@[k as int]) || k < 39);
                        }
                    },
                    None => {},
                }
            }
            k = k + 1;
        }
        proof {
            assert forall|x: int| !is_first_stop(self.buffer@, x) by {
                if is_first_stop(self.buffer@, x) {
                    assert(!stops_at(self.buffer@, x));
                }
            }
        }
        None
    }

    /// Appends a streamed delta and returns the segments it completes.
    pub fn push(&mut self, delta: &str) -> (out: Vec<String>)
        ensures
            out@.map_values(|x: String| x@) == segments(old(self)@ + delta@).0,
            final(self)@ == segments(old(self)@ + delta@).1,
    {
        let d = chars_of(delta);
        let mut i: usize = 0;
        let ghost start = self.buffer@;
        while i < d.len()
            invariant
                i <= d@.len(),
                self.buffer@ == start + d@.take(i as int),
            decreases d@.len() - i,
        {
            self.buffer.push(d[i]);
            i = i + 1;
            assert(self.buffer@ =~= start + d@.take(i as int));
        }
        assert(d@.take(i as int) =~= d@);
        let ghost goal = segments(self.buffer@);
        assert(self.buffer@ == old(self)@ + delta@);
        let mut out: Vec<String> = Vec::new();
        loop
            invariant
                goal == segments(old(self)@ + delta@),
                goal.0 == out@.map_values(|x: String| x@) + segments(self.buffer@).0,
                goal.1 == segments(self.buffer@).1,
            decreases self.buffer@.len(),
        {
            match self.next_boundary() {
                Some(end) => {
                    let ghost b = self.buffer@;
                    proof {
                        let k = choose|k: int| is_first_stop(b, k);
                        assert(is_first_stop(b, k));
                        if !(k >= 17 && is_clause_end(b[k])) && exists|j: int| is_fallback(b, k, j) {
                            let j = choose|j: int| is_fallback(b, k, j);
                            assert(is_fallback(b, k, j));
                        }
                    }
                    let head = slice_chars(&self.buffer, 0, end);
                    let rest = slice_chars(&self.buffer, end, self.buffer.len());
                    assert(head@ =~= b.take(end as int));
                    assert(rest@ =~= b.skip(end as int));
                    let seg = trim_chars(&head);
                    let ghost before = out@.map_values(|x: String| x@);
                    if seg.len() > 0 {
                        out.push(string_of(&seg));
                        assert(out@.map_values(|x: String| x@) =~= before.push(seg@));
                        assert(before.push(seg@) + segments(rest@).0 =~= before + (seq![seg@]
                            + segments(rest@).0));
                    }
                    self.buffer = rest;
                },
                None => {
                    assert(segments(self.buffer@).0 =~= Seq::<Seq<char>>::empty());
                    assert(goal.0 =~= out@.map_values(|x: String| x@));
                    return out;
                },
            }
        }
    }

    /// Takes what is left when the answer ends, trimmed, if not empty.
    pub fn finish(&mut self) -> (r: Option<String>)
        ensures
            final(self)@ == Seq::<char>::empty(),
            opt_chars(r) == if trim(old(self)@).len() > 0 {
                Some(trim(old(self)@))
            } else {
                None
            },
    {
        let t = trim_chars(&self.buffer);
        self.buffer = Vec::new();
        if t.len() > 0 {
            Some(string_of(&t))
        } else {
            None
        }
    }
}

/// Bytes in one 20 ms frame of 24 kHz mono 16-bit PCM.
pub open spec fn frame_bytes() -> int {
    OUTPUT_SAMPLE_RATE * 2 * FRAME_DURATION_MS / 1000
}

/// Bytes in one output frame (960).
pub fn pcm_frame_size() -> (n: usize)
    ensures
        n == frame_bytes(),
        n == 960,
{
    let n: usize = 960;
    assert(n == frame_bytes());
    n
}

/// The whole frames of a byte stream, in order.
pub open spec fn whole_frames(b: Seq<u8>) -> Seq<Seq<u8>>
    decreases b.len(),
{
    if b.len() >= 960 {
        seq![b.take(960)] + whole_frames(b.skip(960))
    } else {
        Seq::empty()
    }
}

/// What stays buffered after the whole frames.
pub open spec fn frame_remainder(b: Seq<u8>) -> Seq<u8>
    decreases b.len(),
{
    if b.len() >= 960 {
        frame_remainder(b.skip(960))
    } else {
        b
    }
}

/// A tail resized to one frame: zero bytes appended, or the excess cut.
pub open spec fn padded_frame(b: Seq<u8>) -> Seq<u8> {
    if b.len() <= 960 {
        b + Seq::new((960 - b.len()) as nat, |i: int| 0u8)
    } else {
        b.take(960)
    }
}

/// The frames laid end to end.
pub open spec fn joined_frames(fs: Seq<Seq<u8>>) -> Seq<u8>
    decreases fs.len(),
{
    if fs.len() == 0 {
        Seq::empty()
    } else {
        fs[0] + joined_frames(fs.drop_first())
    }
}

/// Framing loses and adds nothing: the whole frames, each of 960 bytes,
/// laid end to end and followed by the remainder (under 960 bytes) give
/// back the stream.
pub proof fn lemma_framing_preserves_bytes(b: Seq<u8>)
    ensures
        joined_frames(whole_frames(b)) + frame_remainder(b) == b,
        forall|i: int| 0 <= i < whole_frames(b).len() ==> (#[trigger] whole_frames(b)[i]).len() == 960,
        frame_remainder(b).len() < 960,
    decreases b.len(),
{
    if b.len() >= 960 {
        lemma_framing_preserves_bytes(b.skip(960));
        let w = whole_frames(b);
        assert(w == seq![b.take(960)] + whole_frames(b.skip(960)));
        assert(w.drop_first() =~= whole_frames(b.skip(960)));
        assert(joined_frames(w) == b.take(960) + joined_frames(whole_frames(b.skip(960))));
        assert(b =~= b.take(960) + b.skip(960));
        assert forall|i: int| 0 <= i < w.len() implies (#[trigger] w[i]).len() == 960 by {
            if i > 0 {
                assert(w[i] == whole_frames(b.skip(960))[i - 1]);
            }
        }
    } else {
        assert(joined_frames(whole_frames(b)) =~= Seq::<u8>::empty());
        assert(Seq::<u8>::empty() + b =~= b);
    }
}

/// Framing does not depend on how the stream is cut into pushes: pushing
/// `x` then `y` yields the frames of `x`, then those of its remainder
/// followed by `y`, which are the frames of `x + y`, and leaves the same
/// remainder.
pub proof fn lemma_framing_split(x: Seq<u8>, y: Seq<u8>)
    ensures
        whole_frames(x + y) == whole_frames(x) + whole_frames(frame_remainder(x) + y),
        frame_remainder(x + y) == frame_remainder(frame_remainder(x) + y),
    decreases x.len(),
{
    if x.len() >= 960 {
        lemma_framing_split(x.skip(960), y);
        assert((x + y).take(960) =~= x.take(960));
        assert((x + y).skip(960) =~= x.skip(960) + y);
        assert(seq![x.take(960)] + whole_frames(x.skip(960)) + whole_frames(frame_remainder(x.skip(960)) + y)
            =~= seq![x.take(960)] + (whole_frames(x.skip(960)) + whole_frames(frame_remainder(x.skip(960)) + y)));
    } else {
        assert(whole_frames(x) =~= Seq::<Seq<u8>>::empty());
        assert(Seq::<Seq<u8>>::empty() + whole_frames(x + y) =~= whole_frames(x + y));
    }
}

/// Cuts PCM bytes into 960-byte frames, padding the last one with silence.
#[derive(Debug, Default)]
pub struct PcmFramer {
    buffer: Vec<u8>,
}

impl View for PcmFramer {
    type V = Seq<u8>;

    closed spec fn view(&self) -> Seq<u8> {
        self.buffer@
    }
}

impl PcmFramer {
    pub fn new() -> (f: Self)
        ensures
            f@ == Seq::<u8>::empty(),
    {
        PcmFramer { buffer: Vec::new() }
    }

    /// Appends bytes and returns every frame they complete.
    pub fn push(&mut self, chunk: &[u8]) -> (frames: Vec<Vec<u8>>)
        ensures
            frames@.map_values(|f: Vec<u8>| f@) == whole_frames(old(self)@ + chunk@),
            final(self)@ == frame_remainder(old(self)@ + chunk@),
            final(self)@.len() < 960,
    {
        let mut i: usize = 0;
        let ghost start = self.buffer@;
        while i < chunk.len()
            invariant
                i <= chunk@.len(),
                self.buffer@ == start + chunk@.take(i as int),
            decreases chunk@.len() - i,
        {
            self.buffer.push(chunk[i]);
            i = i + 1;
            assert(self.buffer@ =~= start + chunk@.take(i as int));
        }
        assert(chunk@.take(i as int) =~= chunk@);
        let ghost all = self.buffer@;
        let frame_size = pcm_frame_size();
        let mut frames: Vec<Vec<u8>> = Vec::new();
        while self.buffer.len() >= frame_size
            invariant
                frame_size == 960,
                whole_frames(all) == frames@.map_values(|f: Vec<u8>| f@) + whole_frames(self.buffer@),
                frame_remainder(all) == frame_remainder(self.buffer@),
            decreases self.buffer@.len(),
        {
            let ghost b = self.buffer@;
            let mut rest = self.buffer.split_off(frame_size);
            std::mem::swap(&mut self.buffer, &mut rest);
            let ghost before = frames@.map_values(|f: Vec<u8>| f@);
            frames.push(rest);
            proof {
                assert(frames@.map_values(|f: Vec<u8>| f@) =~= before.push(b.take(960)));
                assert(b.subrange(960, b.len() as int) =~= b.skip(960));
                assert(before.push(b.take(960)) + whole_frames(b.skip(960)) =~= before + (seq![
                    b.take(960),
                ] + whole_frames(b.skip(960))));
            }
        }
        assert(whole_frames(self.buffer@) =~= Seq::<Seq<u8>>::empty());
        assert(frames@.map_values(|f: Vec<u8>| f@) + Seq::<Seq<u8>>::empty() =~= frames@.map_values(
            |f: Vec<u8>| f@,
        ));
        frames
    }

    /// The buffered tail padded with zero bytes (or cut) to a whole frame,
    /// if anything is buffered.
    pub fn finish(self) -> (r: Option<Vec<u8>>)
        ensures
            match r {
                Some(f) => self@.len() > 0 && f@ == padded_frame(self@),
                None => self@.len() == 0,
            },
    {
        if self.buffer.len() == 0 {
            return None;
        }
        let mut b = self.buffer;
        let ghost start = b@;
        if b.len() > 960 {
            b.truncate(960);
            assert(b@ =~= padded_frame(start));
            return Some(b);
        }
        while b.len() < 960
            invariant
                start.len() <= b@.len() <= 960,
                b@ == start + Seq::new((b@.len() - start.len()) as nat, |i: int| 0u8),
            decreases 960 - b@.len(),
        {
            b.push(0u8);
            assert(b@ =~= start + Seq::new((b@.len() - start.len()) as nat, |i: int| 0u8));
        }
        Some(b)
    }
}

} // verus!
