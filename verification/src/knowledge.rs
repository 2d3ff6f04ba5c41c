//! Local knowledge notes for pause-time context injection: how a note is
//! cut into chunks and tokens, how a query's tokens overlap a chunk's, and
//! how retrieved snippets are framed for the model; plus the heuristic that
//! routes a complex turn to the deeper model.

use vstd::prelude::*;
use crate::text::{
    chars_of, contains, contains_any, decimal, decimal_chars, eq_any, extend_chars, extend_str,
    lower, mentions_any, split_whitespace, string_of, to_lower, trim, trim_chars, utf8_len,
    utf8_len_capped, utf8_len_exact, views_of, words, slice_chars, upper, lemma_lower_absorbs_case, lemma_lower_keeps_word_count,
};

verus! {

broadcast use vstd::seq_lib::group_seq_properties;

/// Why notes could not be loaded.
#[derive(Debug, Clone, PartialEq, Eq)]
pub enum KnowledgeError {
    Io(String),
}

impl KnowledgeError {
    /// The message shown for the error.
    pub fn message(&self) -> (m: String)
        ensures
            m@ == match self {
                KnowledgeError::Io(s) => "io error: "@ + s@,
            },
    {
        match self {
            KnowledgeError::Io(s) => {
                let mut v: Vec<char> = Vec::new();
                extend_str(&mut v, "io error: ");
                extend_str(&mut v, s.as_str());
                string_of(&v)
            },
        }
    }
}

/// One retrievable piece of a note.
#[derive(Debug, Clone)]
pub struct KnowledgeChunk {
    pub source: String,
    pub text: String,
    pub tokens: Vec<String>,
}

/// The loaded chunks, in load order.
#[derive(Debug, Clone, Default)]
pub struct KnowledgeStore {
    chunks: Vec<KnowledgeChunk>,
}

/// A chunk as plain text: source, text and tokens.
pub open spec fn chunk_view(c: KnowledgeChunk) -> (Seq<char>, Seq<char>, Seq<Seq<char>>) {
    (c.source@, c.text@, c.tokens@.map_values(|t: String| t@))
}

impl View for KnowledgeStore {
    type V = Seq<(Seq<char>, Seq<char>, Seq<Seq<char>>)>;

    closed spec fn view(&self) -> Seq<(Seq<char>, Seq<char>, Seq<Seq<char>>)> {
        self.chunks@.map_values(|c: KnowledgeChunk| chunk_view(c))
    }
}

/// Whether `char::is_alphanumeric` holds (Unicode `Alphabetic` or `Numeric`).
pub uninterp spec fn unicode_alphanumeric(c: char) -> bool;

/// `char::is_alphanumeric`: Unicode `Alphabetic` or `Numeric`. For ASCII
/// characters that is exactly the letters and digits; the rest of the
/// Unicode tables are named, not restated.
#[verifier::external_body]
pub(crate) fn is_alphanumeric(c: char) -> (r: bool)
    ensures
        r == unicode_alphanumeric(c),
        (c as u32) < 128 ==> (r <==> (('a' <= c && c <= 'z') || ('A' <= c && c <= 'Z') || ('0' <= c
            && c <= '9'))),
{
    c.is_alphanumeric()
}

/// The pieces of `s` between non-alphanumeric characters (`str::split`
/// with that predicate), empty pieces included.
pub open spec fn alnum_pieces(s: Seq<char>) -> Seq<Seq<char>>
    decreases s.len(),
{
    if s.len() == 0 {
        seq![Seq::empty()]
    } else {
        let p = alnum_pieces(s.drop_last());
        if !unicode_alphanumeric(s.last()) {
            p.push(Seq::empty())
        } else {
            p.update(p.len() - 1, p.last().push(s.last()))
        }
    }
}

proof fn lemma_alnum_pieces_nonempty(s: Seq<char>)
    ensures
        alnum_pieces(s).len() >= 1,
    decreases s.len(),
{
    if s.len() > 0 {
        lemma_alnum_pieces_nonempty(s.drop_last());
    }
}

/// Common words never used as tokens.
pub open spec fn stop_words() -> Seq<Seq<char>> {
    seq![
        "the"@, "and"@, "for"@, "that"@, "with"@, "this"@, "from"@, "your"@, "have"@, "are"@,
        "was"@, "were"@, "been"@, "will"@, "would"@, "could"@, "should"@, "about"@, "into"@,
        "what"@, "when"@, "where"@, "which"@, "while"@, "than"@, "then"@, "them"@, "they"@,
        "you"@, "but"@, "not"@, "all"@, "can"@, "our"@, "out"@, "how"@, "who"@, "why"@,
    ]
}

/// A piece is a token when it is longer than two bytes and no stop word.
pub open spec fn is_token(p: Seq<char>) -> bool {
    utf8_len(p) > 2 && !stop_words().contains(p)
}

/// The pieces that are tokens, in order.
pub open spec fn keep_tokens(ps: Seq<Seq<char>>) -> Seq<Seq<char>>
    decreases ps.len(),
{
    if ps.len() == 0 {
        Seq::empty()
    } else if is_token(ps.last()) {
        keep_tokens(ps.drop_last()).push(ps.last())
    } else {
        keep_tokens(ps.drop_last())
    }
}

/// The tokens of a text: ASCII-lowercased, split at non-alphanumeric
/// characters, short pieces and stop words dropped.
pub open spec fn tokens_of(text: Seq<char>) -> Seq<Seq<char>> {
    keep_tokens(alnum_pieces(lower(text)))
}

fn token_check(p: &Vec<char>) -> (r: bool)
    ensures
        r == is_token(p@),
{
    let stops: [&str; 38] = [
        "the", "and", "for", "that", "with", "this", "from", "your", "have", "are", "was", "were",
        "been", "will", "would", "could", "should", "about", "into", "what", "when", "where",
        "which", "while", "than", "then", "them", "they", "you", "but", "not", "all", "can",
        "our", "out", "how", "who", "why",
    ];
    assert(views_of(stops@) =~= stop_words());
    utf8_len_capped(p, 3) > 2 && !eq_any(p, &stops)
}

/// Splits a text into lowercase retrieval tokens.
pub fn tokenize(text: &str) -> (r: Vec<String>)
    ensures
        r@.map_values(|t: String| t@) == tokens_of(text@),
{
    let t = to_lower(&chars_of(text));
    let mut out: Vec<String> = Vec::new();
    let mut cur: Vec<char> = Vec::new();
    let mut i: usize = 0;
    while i < t.len()
        invariant
            i <= t@.len(),
            alnum_pieces(t@.take(i as int)).len() >= 1,
            out@.map_values(|x: String| x@) == keep_tokens(alnum_pieces(t@.take(i as int)).drop_last()),
            cur@ == alnum_pieces(t@.take(i as int)).last(),
        decreases t@.len() - i,
    {
        let c = t[i];
        let ghost pre = t@.take(i as int);
        let ghost now = t@.take(i + 1);
        assert(now.drop_last() =~= pre);
        assert(now.last() == c);
        proof {
            lemma_alnum_pieces_nonempty(pre);
        }
        if !is_alphanumeric(c) {
            let keep = token_check(&cur);
            let ghost before = out@.map_values(|x: String| x@);
            if keep {
                out.push(string_of(&cur));
                assert(out@.map_values(|x: String| x@) =~= before.push(cur@));
            }
            proof {
                let p = alnum_pieces(pre);
                assert(alnum_pieces(now) == p.push(Seq::empty()));
                assert(alnum_pieces(now).drop_last() =~= p);
                assert(p.drop_last().push(p.last()) =~= p);
            }
            cur = Vec::new();
        } else {
            proof {
                let p = alnum_pieces(pre);
                assert(alnum_pieces(now).drop_last() =~= p.drop_last());
            }
            cur.push(c);
        }
        i = i + 1;
    }
    assert(t@.take(i as int) =~= t@);
    let ghost p = alnum_pieces(t@);
    if token_check(&cur) {
        let ghost before = out@.map_values(|x: String| x@);
        out.push(string_of(&cur));
        assert(out@.map_values(|x: String| x@) =~= before.push(cur@));
    }
    assert(p.drop_last().push(p.last()) =~= p);
    out
}

/// Phrases that ask for careful, multi-step thinking.
pub open spec fn deep_markers() -> Seq<Seq<char>> {
    seq![
        "step by step"@, "think carefully"@, "reason about"@, "analyze"@,
        "compare and contrast"@, "write a"@, "implement"@, "debug"@, "prove that"@,
        "algorithm"@, "architecture"@, "trade-off"@, "tradeoff"@, "multi-step"@, "plan for"@,
        "design a"@,
    ]
}

/// Number of ASCII digits.
pub open spec fn digit_count(s: Seq<char>) -> nat
    decreases s.len(),
{
    if s.len() == 0 {
        0
    } else {
        digit_count(s.drop_last()) + if '0' <= s.last() && s.last() <= '9' { 1nat } else { 0nat }
    }
}

/// A turn is complex: 40 words or more, a marker phrase, a question of 18
/// words or more, or six digits or more (ASCII case ignored).
pub open spec fn is_complex_turn(transcript: Seq<char>) -> bool {
    let t = lower(transcript);
    let w = words(t).len();
    ||| w >= 40
    ||| mentions_any(t, deep_markers())
    ||| (t.contains('?') && w >= 18)
    ||| digit_count(t) >= 6
}

/// Whether a turn is complex does not depend on ASCII case; forty words, a
/// marker phrase or six digits each make it complex.
pub proof fn lemma_deep_cognition_rules(t: Seq<char>)
    ensures
        is_complex_turn(upper(t)) == is_complex_turn(t),
        is_complex_turn(lower(t)) == is_complex_turn(t),
        words(lower(t)).len() >= 40 ==> is_complex_turn(t),
        mentions_any(lower(t), deep_markers()) ==> is_complex_turn(t),
        digit_count(lower(t)) >= 6 ==> is_complex_turn(t),
        words(t).len() >= 40 ==> is_complex_turn(t),
        digit_count(t) >= 6 ==> is_complex_turn(t),
{
    lemma_lower_absorbs_case(t);
    lemma_lower_keeps_word_count(t);
    lemma_lower_keeps_digits(t);
}

/// Lowercasing keeps the number of ASCII digits.
pub proof fn lemma_lower_keeps_digits(s: Seq<char>)
    ensures
        digit_count(lower(s)) == digit_count(s),
    decreases s.len(),
{
    if s.len() > 0 {
        assert(lower(s).drop_last() =~= lower(s.drop_last()));
        lemma_lower_keeps_digits(s.drop_last());
    }
}

/// Heuristic: route to a slower / deeper model when the turn looks complex.
pub fn needs_deep_cognition(transcript: &str) -> (r: bool)
    ensures
        r == is_complex_turn(transcript@),
{
    let t = to_lower(&chars_of(transcript));
    let w = split_whitespace(&t).len();
    if w >= 40 {
        return true;
    }
    let markers: [&str; 16] = [
        "step by step", "think carefully", "reason about", "analyze", "compare and contrast",
        "write a", "implement", "debug", "prove that", "algorithm", "architecture", "trade-off",
        "tradeoff", "multi-step", "plan for", "design a",
    ];
    assert(views_of(markers@) =~= deep_markers());
    if contains_any(&t, &markers) {
        return true;
    }
    let mut question = false;
    let mut digits: usize = 0;
    let mut i: usize = 0;
    assert(t@.take(0) =~= Seq::<char>::empty());
    while i < t.len()
        invariant
            i <= t@.len(),
            question == t@.take(i as int).contains('?'),
            digits == digit_count(t@.take(i as int)),
            digits <= i,
        decreases t@.len() - i,
    {
        let c = t[i];
        assert(t@.take(i + 1).drop_last() =~= t@.take(i as int));
        assert(t@.take(i + 1).last() == c);
        if c == '?' {
            assert(t@.take(i + 1)[i as int] == c);
            question = true;
        } else {
            proof {
                if t@.take(i + 1).contains('?') {
                    let k = choose|k: int| 0 <= k < i + 1 && #[trigger] t@.take(i + 1)[k] == '?';
                    assert(t@.take(i as int)[k] == '?');
                }
            }
        }
        if '0' <= c && c <= '9' {
            digits = digits + 1;
        }
        i = i + 1;
    }
    assert(t@.take(i as int) =~= t@);
    (question && w >= 18) || digits >= 6
}

/// The first `'\n'` of `s` stands at `i`.
pub open spec fn first_newline_at(s: Seq<char>, i: int) -> bool {
    0 <= i < s.len() && s[i] == '\n' && forall|j: int| 0 <= j < i ==> s[j] != '\n'
}

/// `str::split_inclusive('\n')`: the lines of `s`, each with its newline.
pub open spec fn inclusive_lines(s: Seq<char>) -> Seq<Seq<char>>
    decreases s.len(),
{
    if s.len() == 0 {
        Seq::empty()
    } else if exists|i: int| first_newline_at(s, i) {
        let i = choose|i: int| first_newline_at(s, i);
        seq![s.take(i + 1)] + inclusive_lines(s.skip(i + 1))
    } else {
        seq![s]
    }
}

proof fn lemma_inclusive_step(s: Seq<char>, i: int)
    requires
        first_newline_at(s, i),
    ensures
        inclusive_lines(s) == seq![s.take(i + 1)] + inclusive_lines(s.skip(i + 1)),
{
    let c = choose|k: int| first_newline_at(s, k);
    assert(first_newline_at(s, c));
    if c < i {
        assert(s[c] != '\n');
    } else if c > i {
        assert(s[i] != '\n');
    }
}

fn split_inclusive_lines(v: &Vec<char>) -> (r: Vec<Vec<char>>)
    ensures
        r@.map_values(|p: Vec<char>| p@) == inclusive_lines(v@),
{
    let mut r: Vec<Vec<char>> = Vec::new();
    let mut start: usize = 0;
    let ghost mut done: Seq<Seq<char>> = Seq::empty();
    while start < v.len()
        invariant
            start <= v@.len(),
            r@.map_values(|p: Vec<char>| p@) == done,
            inclusive_lines(v@) == done + inclusive_lines(v@.skip(start as int)),
        decreases v@.len() - start,
    {
        let ghost rest = v@.skip(start as int);
        let mut j: usize = start;
        while j < v.len() && v[j] != '\n'
            invariant
                start <= j <= v@.len(),
                forall|k: int| start <= k < j ==> v@[k] != '\n',
            decreases v@.len() - j,
        {
            j = j + 1;
        }
        if j < v.len() {
            let line = slice_chars(v, start, j + 1);
            proof {
                assert(first_newline_at(rest, j - start));
                lemma_inclusive_step(rest, j - start);
                assert(rest.take(j - start + 1) =~= line@);
                assert(rest.skip(j - start + 1) =~= v@.skip(j + 1));
                done = done.push(line@);
            }
            let ghost before = r@.map_values(|p: Vec<char>| p@);
            r.push(line);
            assert(r@.map_values(|p: Vec<char>| p@) =~= before.push(line@));
            start = j + 1;
        } else {
            let line = slice_chars(v, start, v.len());
            proof {
                assert(line@ =~= rest);
                assert(!exists|i: int| first_newline_at(rest, i));
                done = done.push(line@);
                assert(v@.skip(v@.len() as int) =~= Seq::<char>::empty());
            }
            let ghost before = r@.map_values(|p: Vec<char>| p@);
            r.push(line);
            assert(r@.map_values(|p: Vec<char>| p@) =~= before.push(line@));
            start = v.len();
        }
    }
    assert(v@.skip(start as int) =~= Seq::<char>::empty());
    assert(done + inclusive_lines(v@.skip(start as int)) =~= done);
    r
}

/// Closed chunks and the chunk being filled after the first lines.
pub open spec fn chunk_fold(ps: Seq<Seq<char>>, max: nat) -> (Seq<Seq<char>>, Seq<char>)
    decreases ps.len(),
{
    if ps.len() == 0 {
        (Seq::empty(), Seq::empty())
    } else {
        let (ch, cur) = chunk_fold(ps.drop_last(), max);
        let p = ps.last();
        if utf8_len(cur) + utf8_len(p) > max && cur.len() > 0 {
            (ch.push(cur), p)
        } else {
            (ch, cur + p)
        }
    }
}

/// A note cut at line ends into chunks of at most `max` bytes (a longer
/// line is a chunk of its own); a blank tail is dropped, and a note that
/// yields nothing but is not blank is one chunk.
pub open spec fn chunks_of(text: Seq<char>, max: nat) -> Seq<Seq<char>> {
    let (ch, cur) = chunk_fold(inclusive_lines(text), max);
    let closed = if trim(cur).len() > 0 {
        ch.push(cur)
    } else {
        ch
    };
    if closed.len() == 0 && trim(text).len() > 0 {
        seq![text]
    } else {
        closed
    }
}

/// The pieces laid end to end.
pub open spec fn joined(cs: Seq<Seq<char>>) -> Seq<char>
    decreases cs.len(),
{
    if cs.len() == 0 {
        Seq::empty()
    } else {
        joined(cs.drop_last()) + cs.last()
    }
}

/// `c` holds more than one line: a line break stands before its last
/// character.
pub open spec fn spans_lines(c: Seq<char>) -> bool {
    exists|i: int| 0 <= i < c.len() - 1 && c[i] == '\n'
}

proof fn lemma_joined_front(a: Seq<char>, rest: Seq<Seq<char>>)
    ensures
        joined(seq![a] + rest) == a + joined(rest),
    decreases rest.len(),
{
    if rest.len() == 0 {
        assert(seq![a] + rest =~= seq![a]);
        assert(seq![a].drop_last() =~= Seq::<Seq<char>>::empty());
        assert(a + Seq::<char>::empty() =~= a);
    } else {
        lemma_joined_front(a, rest.drop_last());
        assert((seq![a] + rest).drop_last() =~= seq![a] + rest.drop_last());
        assert((seq![a] + rest).last() == rest.last());
        assert(a + joined(rest.drop_last()) + rest.last() =~= a + (joined(rest.drop_last()) + rest.last()));
    }
}

proof fn lemma_joined_push(cs: Seq<Seq<char>>, c: Seq<char>)
    ensures
        joined(cs.push(c)) == joined(cs) + c,
{
    assert(cs.push(c).drop_last() =~= cs);
}

proof fn lemma_first_newline_exists(s: Seq<char>, j: int)
    requires
        0 <= j < s.len(),
        s[j] == '\n',
    ensures
        exists|i: int| first_newline_at(s, i),
    decreases j,
{
    if forall|q: int| 0 <= q < j ==> s[q] != '\n' {
        assert(first_newline_at(s, j));
    } else {
        let q = choose|q: int| 0 <= q < j && s[q] == '\n';
        lemma_first_newline_exists(s, q);
    }
}

/// The lines of a text put back together give the text.
#[verifier::spinoff_prover]
proof fn lemma_inclusive_lines_join(s: Seq<char>)
    ensures
        joined(inclusive_lines(s)) == s,
    decreases s.len(),
{
    if s.len() == 0 {
        assert(joined(inclusive_lines(s)) =~= s);
    } else if exists|i: int| first_newline_at(s, i) {
        let i = choose|i: int| first_newline_at(s, i);
        let head = s.take(i + 1);
        let tail = s.skip(i + 1);
        lemma_inclusive_step(s, i);
        assert(tail.len() < s.len());
        lemma_inclusive_lines_join(tail);
        lemma_joined_front(head, inclusive_lines(tail));
        assert(inclusive_lines(s) == seq![head] + inclusive_lines(tail));
        assert(joined(inclusive_lines(s)) == head + joined(inclusive_lines(tail)));
        assert(head + tail =~= s);
    } else {
        assert(inclusive_lines(s) == seq![s]);
        assert(seq![s].drop_last() =~= Seq::<Seq<char>>::empty());
        assert(seq![s].last() == s);
        assert(joined(Seq::<Seq<char>>::empty()) == Seq::<char>::empty());
        assert(joined(seq![s]) == joined(seq![s].drop_last()) + seq![s].last());
        assert(Seq::<char>::empty() + s =~= s);
    }
}

/// No line of a text holds a line break before its end.
#[verifier::spinoff_prover]
proof fn lemma_inclusive_lines_single(s: Seq<char>)
    ensures
        forall|k: int| 0 <= k < inclusive_lines(s).len() ==> !spans_lines(#[trigger] inclusive_lines(s)[k]),
    decreases s.len(),
{
    if s.len() == 0 {
    } else if exists|i: int| first_newline_at(s, i) {
        let i = choose|i: int| first_newline_at(s, i);
        let head = s.take(i + 1);
        let tail = s.skip(i + 1);
        lemma_inclusive_step(s, i);
        lemma_inclusive_lines_single(tail);
        assert(!spans_lines(head)) by {
            if spans_lines(head) {
                let j = choose|j: int| 0 <= j < head.len() - 1 && head[j] == '\n';
                assert(s[j] == '\n');
            }
        }
        let ls = inclusive_lines(s);
        assert forall|k: int| 0 <= k < ls.len() implies !spans_lines(#[trigger] ls[k]) by {
            if k > 0 {
                assert(ls[k] == inclusive_lines(tail)[k - 1]);
            } else {
                assert(ls[0] == head);
            }
        }
    } else {
        assert(inclusive_lines(s) == seq![s]);
        assert(!spans_lines(s)) by {
            if spans_lines(s) {
                let j = choose|j: int| 0 <= j < s.len() - 1 && s[j] == '\n';
                lemma_first_newline_exists(s, j);
            }
        }
    }
}

/// Folding lines into chunks keeps every character in order, and a chunk
/// (closed or open) that holds more than one line fits in `max` bytes.
proof fn lemma_chunk_fold_facts(ps: Seq<Seq<char>>, max: nat)
    requires
        forall|k: int| 0 <= k < ps.len() ==> !spans_lines(#[trigger] ps[k]),
    ensures
        joined(chunk_fold(ps, max).0) + chunk_fold(ps, max).1 == joined(ps),
        forall|k: int| 0 <= k < chunk_fold(ps, max).0.len() ==> spans_lines(#[trigger] chunk_fold(ps, max).0[k])
            ==> utf8_len(chunk_fold(ps, max).0[k]) <= max,
        spans_lines(chunk_fold(ps, max).1) ==> utf8_len(chunk_fold(ps, max).1) <= max,
    decreases ps.len(),
{
    if ps.len() == 0 {
        assert(joined(Seq::<Seq<char>>::empty()) + Seq::<char>::empty() =~= joined(ps));
        assert(!spans_lines(Seq::<char>::empty()));
    } else {
        let d = ps.drop_last();
        assert forall|k: int| 0 <= k < d.len() implies !spans_lines(#[trigger] d[k]) by {
            assert(d[k] == ps[k]);
        }
        lemma_chunk_fold_facts(d, max);
        let (ch, cur) = chunk_fold(d, max);
        let p = ps.last();
        assert(!spans_lines(p)) by {
            assert(ps[ps.len() - 1] == p);
        }
        lemma_joined_push(d, p);
        assert(d.push(p) =~= ps);
        if utf8_len(cur) + utf8_len(p) > max && cur.len() > 0 {
            lemma_joined_push(ch, cur);
            assert(joined(ch.push(cur)) + p =~= joined(ch) + cur + p);
            assert forall|k: int| 0 <= k < ch.push(cur).len() implies spans_lines(#[trigger] ch.push(cur)[k])
                ==> utf8_len(ch.push(cur)[k]) <= max by {
                if k < ch.len() {
                    assert(ch.push(cur)[k] == ch[k]);
                }
            }
        } else {
            assert(joined(ch) + (cur + p) =~= joined(ch) + cur + p);
            crate::text::lemma_utf8_len_concat(cur, p);
            if spans_lines(cur + p) && cur.len() == 0 {
                assert(cur + p =~= p);
            }
        }
    }
}

/// A note's chunks keep its text: laid end to end they give the note back
/// but for a blank tail; and every chunk that holds more than one line fits
/// in `max` bytes (only a single line longer than `max` makes a longer one).
pub proof fn lemma_chunks_fit_and_keep_text(text: Seq<char>, max: nat)
    ensures
        forall|k: int| 0 <= k < chunks_of(text, max).len() ==> spans_lines(#[trigger] chunks_of(text, max)[k])
            ==> utf8_len(chunks_of(text, max)[k]) <= max,
        exists|tail: Seq<char>| joined(chunks_of(text, max)) + tail == text && trim(tail).len() == 0,
{
    let ps = inclusive_lines(text);
    lemma_inclusive_lines_join(text);
    lemma_inclusive_lines_single(text);
    lemma_chunk_fold_facts(ps, max);
    let (ch, cur) = chunk_fold(ps, max);
    let closed = if trim(cur).len() > 0 { ch.push(cur) } else { ch };
    if trim(cur).len() > 0 {
        lemma_joined_push(ch, cur);
        assert(joined(closed) + Seq::<char>::empty() =~= text);
        assert(trim(Seq::<char>::empty()) =~= Seq::<char>::empty());
        assert forall|k: int| 0 <= k < closed.len() implies spans_lines(#[trigger] closed[k]) ==> utf8_len(closed[k]) <= max by {
            if k < ch.len() {
                assert(closed[k] == ch[k]);
            }
        }
    } else {
        if closed.len() == 0 {
            assert(joined(ch) =~= Seq::<char>::empty());
            assert(Seq::<char>::empty() + cur =~= cur);
            assert(cur == text);
        }
        assert(joined(closed) + cur == text);
    }
}

/// Cuts a note into chunks of at most `max_chars` bytes at line ends.
pub fn chunk_text(text: &str, max_chars: usize) -> (r: Vec<String>)
    ensures
        r@.map_values(|c: String| c@) == chunks_of(text@, max_chars as nat),
{
    let all = chars_of(text);
    let ps = split_inclusive_lines(&all);
    let ghost pv = ps@.map_values(|p: Vec<char>| p@);
    let mut chunks: Vec<String> = Vec::new();
    let mut cur: Vec<char> = Vec::new();
    let mut cur_len: u128 = 0;
    let mut i: usize = 0;
    assert(pv.take(0) =~= Seq::<Seq<char>>::empty());
    while i < ps.len()
        invariant
            i <= ps@.len(),
            pv == ps@.map_values(|p: Vec<char>| p@),
            chunks@.map_values(|c: String| c@) == chunk_fold(pv.take(i as int), max_chars as nat).0,
            cur@ == chunk_fold(pv.take(i as int), max_chars as nat).1,
            cur_len == utf8_len(cur@),
        decreases ps@.len() - i,
    {
        assert(pv.take(i + 1).drop_last() =~= pv.take(i as int));
        assert(pv.take(i + 1).last() == ps@[i as int]@);
        let p = &ps[i];
        let p_len = utf8_len_exact(p);
        let cl: usize = cur.len();
        let pl: usize = p.len();
        proof {
            crate::text::lemma_utf8_len_bound(cur@);
            crate::text::lemma_utf8_len_bound(p@);
        }
        if cur_len + p_len > max_chars as u128 && cur.len() > 0 {
            let ghost before = chunks@.map_values(|c: String| c@);
            chunks.push(string_of(&cur));
            assert(chunks@.map_values(|c: String| c@) =~= before.push(cur@));
            cur = slice_chars(p, 0, p.len());
            assert(cur@ =~= p@);
            cur_len = p_len;
        } else {
            extend_chars(&mut cur, p);
            proof {
                crate::text::lemma_utf8_len_concat(chunk_fold(pv.take(i as int), max_chars as nat).1, p@);
            }
            cur_len = cur_len + p_len;
        }
        i = i + 1;
    }
    assert(pv.take(i as int) =~= pv);
    let tail = trim_chars(&cur);
    if tail.len() > 0 {
        let ghost before = chunks@.map_values(|c: String| c@);
        chunks.push(string_of(&cur));
        assert(chunks@.map_values(|c: String| c@) =~= before.push(cur@));
    }
    if chunks.len() == 0 && trim_chars(&all).len() > 0 {
        let mut one: Vec<String> = Vec::new();
        one.push(text.to_owned());
        assert(one@.map_values(|c: String| c@) =~= seq![text@]);
        return one;
    }
    chunks
}

/// Bytes per retrievable chunk.
pub const CHUNK_BYTES: usize = 600;

/// The chunks a note adds: its pieces with at least one token, each named
/// `{source}#{index of the piece}`.
pub open spec fn note_chunks(source: Seq<char>, pieces: Seq<Seq<char>>) -> Seq<(Seq<char>, Seq<char>, Seq<Seq<char>>)>
    decreases pieces.len(),
{
    if pieces.len() == 0 {
        Seq::empty()
    } else {
        let prev = note_chunks(source, pieces.drop_last());
        let piece = pieces.last();
        if tokens_of(piece).len() > 0 {
            prev.push((source + "#"@ + decimal((pieces.len() - 1) as nat), piece, tokens_of(piece)))
        } else {
            prev
        }
    }
}

impl KnowledgeStore {
    /// A store with no notes.
    pub fn empty() -> (s: Self)
        ensures
            s@ == Seq::<(Seq<char>, Seq<char>, Seq<Seq<char>>)>::empty(),
    {
        let s = KnowledgeStore { chunks: Vec::new() };
        assert(s@ =~= Seq::<(Seq<char>, Seq<char>, Seq<Seq<char>>)>::empty());
        s
    }

    pub fn len(&self) -> (n: usize)
        ensures
            n == self@.len(),
    {
        self.chunks.len()
    }

    pub fn is_empty(&self) -> (r: bool)
        ensures
            r == (self@.len() == 0),
    {
        self.chunks.len() == 0
    }

    /// The chunks, in load order.
    pub fn chunks(&self) -> (r: &Vec<KnowledgeChunk>)
        ensures
            r@.map_values(|c: KnowledgeChunk| chunk_view(c)) == self@,
    {
        &self.chunks
    }

    /// Adds one note: its 600-byte chunks that have tokens.
    pub fn add_note(&mut self, source: &str, text: &str)
        ensures
            final(self)@ == old(self)@ + note_chunks(source@, chunks_of(text@, CHUNK_BYTES as nat)),
    {
        let pieces = chunk_text(text, CHUNK_BYTES);
        let ghost pv = pieces@.map_values(|c: String| c@);
        let ghost start = self@;
        let mut i: usize = 0;
        assert(pv.take(0) =~= Seq::<Seq<char>>::empty());
        while i < pieces.len()
            invariant
                i <= pieces@.len(),
                pv == pieces@.map_values(|c: String| c@),
                pv == chunks_of(text@, CHUNK_BYTES as nat),
                self@ == start + note_chunks(source@, pv.take(i as int)),
            decreases pieces@.len() - i,
        {
            assert(pv.take(i + 1).drop_last() =~= pv.take(i as int));
            assert(pv.take(i + 1).last() == pieces@[i as int]@);
            assert(pv.take(i + 1).len() == i + 1);
            let tokens = tokenize(pieces[i].as_str());
            if tokens.len() > 0 {
                let mut name: Vec<char> = Vec::new();
                extend_str(&mut name, source);
                extend_str(&mut name, "#");
                let digits = decimal_chars(i as u64);
                extend_chars(&mut name, &digits);
                let chunk = KnowledgeChunk {
                    source: string_of(&name),
                    text: pieces[i].clone(),
                    tokens,
                };
                let ghost before = self@;
                self.chunks.push(chunk);
                assert(self@ =~= before.push(chunk_view(chunk)));
            } else {
                assert(tokens@.map_values(|t: String| t@).len() == 0);
            }
            i = i + 1;
        }
        assert(pv.take(i as int) =~= pv);
    }
}

/// How many query tokens (with repeats) occur in the chunk's tokens.
pub open spec fn hit_count(query: Seq<Seq<char>>, doc: Seq<Seq<char>>) -> nat
    decreases query.len(),
{
    if query.len() == 0 {
        0
    } else {
        hit_count(query.drop_last(), doc) + if doc.contains(query.last()) { 1nat } else { 0nat }
    }
}

fn string_in(s: &String, items: &Vec<String>) -> (r: bool)
    ensures
        r == items@.map_values(|t: String| t@).contains(s@),
{
    let mut i: usize = 0;
    while i < items.len()
        invariant
            i <= items@.len(),
            forall|k: int| 0 <= k < i ==> items@[k]@ != s@,
        decreases items@.len() - i,
    {
        if items[i] == *s {
            assert(items@.map_values(|t: String| t@)[i as int] == s@);
            return true;
        }
        i = i + 1;
    }
    proof {
        let m = items@.map_values(|t: String| t@);
        if m.contains(s@) {
            let k = choose|k: int| 0 <= k < m.len() && #[trigger] m[k] == s@;
            assert(items@[k]@ == s@);
        }
    }
    false
}

/// The overlap of a query with a chunk: hits, and the size of the union
/// (query tokens plus the chunk's tokens that were not hit).
pub fn overlap_counts(query: &Vec<String>, doc: &Vec<String>) -> (r: (usize, usize))
    requires
        query@.len() + doc@.len() <= usize::MAX,
    ensures
        r.0 == hit_count(query@.map_values(|t: String| t@), doc@.map_values(|t: String| t@)),
        r.1 == query@.len() + if doc@.len() >= r.0 { doc@.len() - r.0 } else { 0 },
{
    let ghost q = query@.map_values(|t: String| t@);
    let ghost d = doc@.map_values(|t: String| t@);
    let mut hits: usize = 0;
    let mut i: usize = 0;
    assert(q.take(0) =~= Seq::<Seq<char>>::empty());
    while i < query.len()
        invariant
            i <= query@.len(),
            q == query@.map_values(|t: String| t@),
            d == doc@.map_values(|t: String| t@),
            hits == hit_count(q.take(i as int), d),
            hits <= i,
        decreases query@.len() - i,
    {
        assert(q.take(i + 1).drop_last() =~= q.take(i as int));
        assert(q.take(i + 1).last() == query@[i as int]@);
        if string_in(&query[i], doc) {
            hits = hits + 1;
        }
        i = i + 1;
    }
    assert(q.take(i as int) =~= q);
    let rest = if doc.len() >= hits {
        doc.len() - hits
    } else {
        0
    };
    (hits, query.len() + rest)
}

/// The snippet a retrieved chunk contributes: `[source] text` (trimmed).
pub open spec fn snippet_of(source: Seq<char>, text: Seq<char>) -> Seq<char> {
    "["@ + source + "] "@ + trim(text)
}

/// The snippet of a retrieved chunk.
pub fn chunk_snippet(chunk: &KnowledgeChunk) -> (r: String)
    ensures
        r@ == snippet_of(chunk.source@, chunk.text@),
{
    let mut v: Vec<char> = Vec::new();
    extend_str(&mut v, "[");
    extend_str(&mut v, chunk.source.as_str());
    extend_str(&mut v, "] ");
    let t = trim_chars(&chars_of(chunk.text.as_str()));
    extend_chars(&mut v, &t);
    string_of(&v)
}

/// The numbered lines `1. hit` … after the first `k` hits.
pub open spec fn numbered(hits: Seq<Seq<char>>) -> Seq<char>
    decreases hits.len(),
{
    if hits.len() == 0 {
        Seq::empty()
    } else {
        numbered(hits.drop_last()) + decimal(hits.len() as nat) + ". "@ + hits.last() + "\n"@
    }
}

/// The system-prompt appendix for retrieved snippets; none without hits.
pub open spec fn knowledge_block(hits: Seq<Seq<char>>) -> Option<Seq<char>> {
    if hits.len() == 0 {
        None
    } else {
        Some("Relevant operator knowledge (use only if it helps answer accurately):\n"@ + numbered(hits))
    }
}

/// Frames retrieved snippets as a numbered system-prompt appendix.
pub fn knowledge_context(hits: &Vec<String>) -> (r: Option<String>)
    ensures
        crate::text::opt_chars(r) == knowledge_block(hits@.map_values(|h: String| h@)),
{
    let ghost hv = hits@.map_values(|h: String| h@);
    if hits.len() == 0 {
        return None;
    }
    let mut out: Vec<char> = Vec::new();
    extend_str(&mut out, "Relevant operator knowledge (use only if it helps answer accurately):\n");
    let ghost head = out@;
    let mut i: usize = 0;
    assert(hv.take(0) =~= Seq::<Seq<char>>::empty());
    assert(out@ =~= head + numbered(hv.take(0)));
    while i < hits.len()
        invariant
            i <= hits@.len(),
            hv == hits@.map_values(|h: String| h@),
            out@ == head + numbered(hv.take(i as int)),
        decreases hits@.len() - i,
    {
        assert(hv.take(i + 1).drop_last() =~= hv.take(i as int));
        assert(hv.take(i + 1).last() == hits@[i as int]@);
        assert(hv.take(i + 1).len() == i + 1);
        let digits = decimal_chars((i + 1) as u64);
        extend_chars(&mut out, &digits);
        extend_str(&mut out, ". ");
        extend_str(&mut out, hits[i].as_str());
        extend_str(&mut out, "\n");
        i = i + 1;
    }
    assert(hv.take(i as int) =~= hv);
    Some(string_of(&out))
}

/// Whether a file extension names a note (`md` or `txt`, any ASCII case).
pub fn is_note_extension(ext: &str) -> (r: bool)
    ensures
        r == (lower(ext@) == "md"@ || lower(ext@) == "txt"@),
{
    let e = to_lower(&chars_of(ext));
    crate::text::eq_str(&e, "md") || crate::text::eq_str(&e, "txt")
}


/// The score of chunk `i`: its entry in `scores`, 0 past the end. Scores are
/// the bit patterns of non-negative `f32` overlap scores, which order as the
/// numbers do.
pub open spec fn score_at(scores: Seq<u32>, i: int) -> u32 {
    if 0 <= i < scores.len() {
        scores[i]
    } else {
        0
    }
}

/// Chunk `i` ranks before chunk `j`: a higher score, or an equal score and
/// an earlier place (a stable sort by descending score).
pub open spec fn ranks_before(scores: Seq<u32>, i: int, j: int) -> bool {
    score_at(scores, i) > score_at(scores, j) || (score_at(scores, i) == score_at(scores, j) && i < j)
}

/// `order` lists exactly the chunks (of `n`) with a positive score, each
/// once, best first.
pub open spec fn is_ranking(order: Seq<int>, scores: Seq<u32>, n: int) -> bool {
    &&& forall|a: int| 0 <= a < order.len() ==> 0 <= #[trigger] order[a] < n && score_at(scores, order[a]) > 0
    &&& forall|i: int| 0 <= i < n && score_at(scores, i) > 0 ==> #[trigger] order.contains(i)
    &&& forall|a: int, b: int| 0 <= a < b < order.len() ==> ranks_before(scores, #[trigger] order[a], #[trigger] order[b])
}

/// Two orders strictly sorted by rank over the same members are the same.
proof fn lemma_rank_order_unique(o1: Seq<int>, o2: Seq<int>, scores: Seq<u32>)
    requires
        forall|x: int| o1.contains(x) <==> o2.contains(x),
        forall|a: int, b: int| 0 <= a < b < o1.len() ==> ranks_before(scores, #[trigger] o1[a], #[trigger] o1[b]),
        forall|a: int, b: int| 0 <= a < b < o2.len() ==> ranks_before(scores, #[trigger] o2[a], #[trigger] o2[b]),
    ensures
        o1 == o2,
    decreases o1.len(),
{
    if o1.len() == 0 {
        if o2.len() > 0 {
            assert(o2.contains(o2[0]));
        }
        assert(o1 =~= o2);
    } else {
        assert(o1.contains(o1[0]));
        let p = choose|p: int| 0 <= p < o2.len() && o2[p] == o1[0];
        assert(o2.contains(o2[0]));
        let q = choose|q: int| 0 <= q < o1.len() && o1[q] == o2[0];
        if p > 0 {
            assert(ranks_before(scores, o2[0], o2[p]));
            if q > 0 {
                assert(ranks_before(scores, o1[0], o1[q]));
            }
        }
        assert(o1[0] == o2[0]);
        let d1 = o1.drop_first();
        let d2 = o2.drop_first();
        assert forall|x: int| d1.contains(x) <==> d2.contains(x) by {
            if d1.contains(x) {
                let a = choose|a: int| 0 <= a < d1.len() && d1[a] == x;
                assert(o1[a + 1] == x);
                assert(ranks_before(scores, o1[0], o1[a + 1]));
                assert(o1.contains(x));
                let b = choose|b: int| 0 <= b < o2.len() && o2[b] == x;
                assert(b != 0);
                assert(d2[b - 1] == x);
            }
            if d2.contains(x) {
                let a = choose|a: int| 0 <= a < d2.len() && d2[a] == x;
                assert(o2[a + 1] == x);
                assert(ranks_before(scores, o2[0], o2[a + 1]));
                assert(o2.contains(x));
                let b = choose|b: int| 0 <= b < o1.len() && o1[b] == x;
                assert(b != 0);
                assert(d1[b - 1] == x);
            }
        }
        assert forall|a: int, b: int| 0 <= a < b < d1.len() implies ranks_before(scores, #[trigger] d1[a], #[trigger] d1[b]) by {
            assert(d1[a] == o1[a + 1] && d1[b] == o1[b + 1]);
        }
        assert forall|a: int, b: int| 0 <= a < b < d2.len() implies ranks_before(scores, #[trigger] d2[a], #[trigger] d2[b]) by {
            assert(d2[a] == o2[a + 1] && d2[b] == o2[b + 1]);
        }
        lemma_rank_order_unique(d1, d2, scores);
        assert(o1 =~= seq![o1[0]] + d1);
        assert(o2 =~= seq![o2[0]] + d2);
    }
}

/// A retrieval has one answer: two results that both meet `retrieval` for
/// the same store, query, `k` and scores are equal. So injecting context
/// frames exactly what `retrieve` returns for the same arguments.
pub proof fn lemma_retrieval_is_functional(
    chunks: Seq<(Seq<char>, Seq<char>, Seq<Seq<char>>)>,
    query: Seq<char>,
    k: int,
    scores: Seq<u32>,
    r1: Seq<Seq<char>>,
    r2: Seq<Seq<char>>,
)
    requires
        retrieval(chunks, query, k, scores, r1),
        retrieval(chunks, query, k, scores, r2),
    ensures
        r1 == r2,
        knowledge_block(r1) == knowledge_block(r2),
{
    if chunks.len() == 0 || k == 0 || tokens_of(query).len() == 0 {
        assert(r1 =~= r2);
    } else {
        let n = chunks.len() as int;
        let o1 = choose|o: Seq<int>| is_ranking(o, scores, n) && r1 == ranked_snippets(chunks, o, k);
        let o2 = choose|o: Seq<int>| is_ranking(o, scores, n) && r2 == ranked_snippets(chunks, o, k);
        assert forall|x: int| o1.contains(x) <==> o2.contains(x) by {
            if o1.contains(x) {
                let a = choose|a: int| 0 <= a < o1.len() && o1[a] == x;
                assert(0 <= o1[a] < n && score_at(scores, o1[a]) > 0);
            }
            if o2.contains(x) {
                let a = choose|a: int| 0 <= a < o2.len() && o2[a] == x;
                assert(0 <= o2[a] < n && score_at(scores, o2[a]) > 0);
            }
        }
        lemma_rank_order_unique(o1, o2, scores);
    }
}

/// The snippets of the first `k` ranked chunks.
pub open spec fn ranked_snippets(
    chunks: Seq<(Seq<char>, Seq<char>, Seq<Seq<char>>)>,
    order: Seq<int>,
    k: int,
) -> Seq<Seq<char>> {
    let m = if order.len() < k { order.len() as int } else { k };
    Seq::new(m as nat, |j: int| snippet_of(chunks[order[j]].0, chunks[order[j]].1))
}

/// What a retrieval returns: nothing for an empty store, `k == 0` or a
/// query without tokens; else the snippets of the best `k` chunks.
pub open spec fn retrieval(
    chunks: Seq<(Seq<char>, Seq<char>, Seq<Seq<char>>)>,
    query: Seq<char>,
    k: int,
    scores: Seq<u32>,
    r: Seq<Seq<char>>,
) -> bool {
    if chunks.len() == 0 || k == 0 || tokens_of(query).len() == 0 {
        r.len() == 0
    } else {
        exists|order: Seq<int>| is_ranking(order, scores, chunks.len() as int) && r == ranked_snippets(chunks, order, k)
    }
}

fn score_of(scores: &Vec<u32>, i: usize) -> (s: u32)
    ensures
        s == score_at(scores@, i as int),
{
    if i < scores.len() {
        scores[i]
    } else {
        0
    }
}

/// The chunks with a positive score, best first.
fn rank_chunks(n: usize, scores: &Vec<u32>) -> (order: Vec<usize>)
    ensures
        is_ranking(order@.map_values(|i: usize| i as int), scores@, n as int),
{
    let mut rem: Vec<usize> = Vec::new();
    let mut i: usize = 0;
    while i < n
        invariant
            i <= n,
            forall|a: int| 0 <= a < rem@.len() ==> 0 <= #[trigger] rem@[a] < i && score_at(scores@, rem@[a] as int) > 0,
            forall|a: int, b: int| 0 <= a < b < rem@.len() ==> #[trigger] rem@[a] < #[trigger] rem@[b],
            forall|x: int| 0 <= x < i && score_at(scores@, x) > 0 ==> rem@.contains(x as usize),
        decreases n - i,
    {
        if score_of(scores, i) > 0 {
            rem.push(i);
        }
        i = i + 1;
    }
    let mut out: Vec<usize> = Vec::new();
    while rem.len() > 0
        invariant
            forall|a: int| 0 <= a < rem@.len() ==> 0 <= #[trigger] rem@[a] < n && score_at(scores@, rem@[a] as int) > 0,
            forall|a: int| 0 <= a < out@.len() ==> 0 <= #[trigger] out@[a] < n && score_at(scores@, out@[a] as int) > 0,
            forall|a: int, b: int| 0 <= a < b < rem@.len() ==> #[trigger] rem@[a] != #[trigger] rem@[b],
            forall|x: int| 0 <= x < n && score_at(scores@, x) > 0 ==> out@.contains(x as usize) || rem@.contains(x as usize),
            forall|a: int, b: int| 0 <= a < b < out@.len() ==> ranks_before(scores@, #[trigger] out@[a] as int, #[trigger] out@[b] as int),
            forall|a: int, b: int| 0 <= a < out@.len() && 0 <= b < rem@.len() ==> ranks_before(scores@, #[trigger] out@[a] as int, #[trigger] rem@[b] as int),
        decreases rem@.len(),
    {
        let mut best: usize = 0;
        let mut j: usize = 1;
        while j < rem.len()
            invariant
                0 < rem@.len(),
                best < j <= rem@.len(),
                forall|c: int| 0 <= c < j && c != best ==> ranks_before(scores@, rem@[best as int] as int, #[trigger] rem@[c] as int),
                forall|a: int, b: int| 0 <= a < b < rem@.len() ==> #[trigger] rem@[a] != #[trigger] rem@[b],
            decreases rem@.len() - j,
        {
            let sj = score_of(scores, rem[j]);
            let sb = score_of(scores, rem[best]);
            if sj > sb || (sj == sb && rem[j] < rem[best]) {
                assert forall|c: int| 0 <= c < j + 1 && c != j implies ranks_before(scores@, rem@[j as int] as int, #[trigger] rem@[c] as int) by {
                    if c != best {
                        assert(ranks_before(scores@, rem@[best as int] as int, rem@[c] as int));
                    }
                }
                best = j;
            }
            j = j + 1;
        }
        let ghost r0 = rem@;
        let ghost o0 = out@;
        let pick = rem.remove(best);
        proof {
            assert(rem@ =~= r0.remove(best as int));
            assert forall|x: int| 0 <= x < n && score_at(scores@, x) > 0 implies out@.push(pick).contains(x as usize)
                || rem@.contains(x as usize) by {
                if o0.contains(x as usize) {
                    let a = choose|a: int| 0 <= a < o0.len() && o0[a] == x as usize;
                    assert(out@.push(pick)[a] == x as usize);
                } else {
                    let a = choose|a: int| 0 <= a < r0.len() && r0[a] == x as usize;
                    if a == best {
                        assert(out@.push(pick)[o0.len() as int] == x as usize);
                    } else if a < best {
                        assert(rem@[a] == x as usize);
                    } else {
                        assert(rem@[a - 1] == x as usize);
                    }
                }
            }
            assert forall|a: int, b: int| 0 <= a < out@.push(pick).len() && 0 <= b < rem@.len() implies ranks_before(scores@, #[trigger] out@.push(pick)[a] as int, #[trigger] rem@[b] as int) by {
                let b0 = if b < best { b } else { b + 1 };
                assert(rem@[b] == r0[b0]);
                if a == o0.len() {
                    assert(b0 != best);
                }
            }
        }
        out.push(pick);
    }
    proof {
        let ov = out@.map_values(|i: usize| i as int);
        assert forall|i: int| 0 <= i < n && score_at(scores@, i) > 0 implies #[trigger] ov.contains(i) by {
            assert(out@.contains(i as usize));
            let a = choose|a: int| 0 <= a < out@.len() && out@[a] == i as usize;
            assert(ov[a] == i);
        }
    }
    out
}

impl KnowledgeStore {
    /// The snippets of the `k` chunks that best overlap the query, given each
    /// chunk's overlap score (`f32` bits, as `overlap_counts` feeds the
    /// floating-point formula): chunks scoring 0 are dropped, the rest ranked
    /// by descending score, ties in load order. Nothing for an empty store,
    /// `k == 0` or a query without tokens.
    pub fn retrieve(&self, query: &str, k: usize, scores: &Vec<u32>) -> (r: Vec<String>)
        ensures
            retrieval(self@, query@, k as int, scores@, r@.map_values(|h: String| h@)),
    {
        if self.chunks.len() == 0 || k == 0 {
            return Vec::new();
        }
        let q = tokenize(query);
        if q.len() == 0 {
            proof {
                assert(q@.map_values(|t: String| t@).len() == 0);
            }
            return Vec::new();
        }
        let order = rank_chunks(self.chunks.len(), scores);
        let ghost ov = order@.map_values(|i: usize| i as int);
        let m: usize = if order.len() < k {
            order.len()
        } else {
            k
        };
        let mut out: Vec<String> = Vec::new();
        let mut j: usize = 0;
        while j < m
            invariant
                m <= order@.len(),
                j <= m,
                is_ranking(ov, scores@, self@.len() as int),
                ov == order@.map_values(|i: usize| i as int),
                out@.len() == j,
                forall|c: int| 0 <= c < j ==> (#[trigger] out@[c])@ == snippet_of(self@[ov[c]].0, self@[ov[c]].1),
            decreases m - j,
        {
            assert(ov[j as int] == order@[j as int] as int);
            let i = order[j];
            let snip = chunk_snippet(&self.chunks[i]);
            out.push(snip);
            j = j + 1;
        }
        proof {
            assert(out@.map_values(|h: String| h@) =~= ranked_snippets(self@, ov, k as int));
        }
        out
    }

    /// The system-prompt appendix for the best `k` chunks, if any matched.
    pub fn inject_context(&self, query: &str, k: usize, scores: &Vec<u32>) -> (r: Option<String>)
        ensures
            exists|hits: Seq<Seq<char>>|
                retrieval(self@, query@, k as int, scores@, hits) && crate::text::opt_chars(r) == knowledge_block(hits),
    {
        let hits = self.retrieve(query, k, scores);
        knowledge_context(&hits)
    }
}

} // verus!
