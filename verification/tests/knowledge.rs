use openlive::knowledge::{
    chunk_snippet, chunk_text, is_note_extension, knowledge_context, needs_deep_cognition,
    overlap_counts, tokenize, KnowledgeChunk, KnowledgeStore,
};

#[test]
fn deep_cognition_detects_markers() {
    assert!(needs_deep_cognition(
        "Please think carefully and design a multi-step architecture plan."
    ));
    assert!(!needs_deep_cognition("Hey, how's the weather?"));
}

#[test]
fn deep_cognition_counts_digits_and_long_questions() {
    assert!(needs_deep_cognition("call 555 1234 now"));
    assert!(!needs_deep_cognition("call 555 now"));
    let long_question = "one two three four five six seven eight nine ten eleven twelve thirteen fourteen fifteen sixteen seventeen eighteen?";
    assert!(needs_deep_cognition(long_question));
}

#[test]
fn tokenize_drops_stop_words_and_short_pieces() {
    assert_eq!(
        tokenize("The Piper voice, for OpenLive TTS!"),
        vec!["piper", "voice", "openlive", "tts"]
    );
    assert!(tokenize("a an to of").is_empty());
}

#[test]
fn tokens_split_at_unicode_non_alphanumerics() {
    assert_eq!(tokenize("Café—naïve:语音合成"), vec!["café", "naïve", "语音合成"]);
    assert_eq!(tokenize("x-ray, 42nd"), vec!["ray", "42nd"]);
}

#[test]
fn chunk_text_groups_lines_up_to_the_limit() {
    let chunks = chunk_text("aaaa\nbbbb\ncccc\n", 10);
    assert_eq!(chunks, vec!["aaaa\nbbbb\n", "cccc\n"]);
    assert!(chunk_text("", 10).is_empty());
}

#[test]
fn empty_store_has_no_chunks() {
    let store = KnowledgeStore::empty();
    assert!(store.is_empty());
    assert_eq!(store.len(), 0);
}

#[test]
fn notes_become_token_bearing_chunks() {
    let mut store = KnowledgeStore::empty();
    store.add_note("notes.md", "OpenLive prefers Piper for open neural TTS voices.\n");
    store.add_note("empty.md", "a b c\n");
    assert_eq!(store.len(), 1);
    let chunk = &store.chunks()[0];
    assert_eq!(chunk.source, "notes.md#0");
    assert!(chunk.tokens.contains(&"piper".to_owned()));
    assert_eq!(
        chunk_snippet(chunk),
        "[notes.md#0] OpenLive prefers Piper for open neural TTS voices."
    );
}

#[test]
fn overlap_counts_hits_and_union() {
    let q = tokenize("which tts voice should openlive use piper");
    let d = tokenize("OpenLive prefers Piper for open neural TTS voices.");
    let (hits, union) = overlap_counts(&q, &d);
    assert_eq!(hits, 3);
    assert_eq!(union, q.len() + d.len() - 3);
}

#[test]
fn knowledge_context_numbers_hits() {
    assert!(knowledge_context(&vec![]).is_none());
    let block = knowledge_context(&vec!["[a] one".to_owned(), "[b] two".to_owned()]).expect("block");
    assert_eq!(
        block,
        "Relevant operator knowledge (use only if it helps answer accurately):\n1. [a] one\n2. [b] two\n"
    );
}

#[test]
fn note_extensions() {
    assert!(is_note_extension("md"));
    assert!(is_note_extension("TXT"));
    assert!(!is_note_extension("pdf"));
}

#[test]
fn chunk_struct_is_plain_data() {
    let c = KnowledgeChunk { source: "s".to_owned(), text: "  t  ".to_owned(), tokens: vec![] };
    assert_eq!(chunk_snippet(&c), "[s] t");
}

fn overlap_score(hits: usize, union: usize) -> f32 {
    if hits == 0 || union == 0 {
        0.0
    } else {
        let h = hits as f32;
        h / union as f32 * (1.0 + h.ln_1p() * 0.15)
    }
}

fn scores_for(store: &KnowledgeStore, query: &str) -> Vec<u32> {
    let q = tokenize(query);
    store
        .chunks()
        .iter()
        .map(|c| {
            let (h, u) = overlap_counts(&q, &c.tokens);
            overlap_score(h, u).to_bits()
        })
        .collect()
}

#[test]
fn empty_store_returns_nothing() {
    let store = KnowledgeStore::empty();
    assert!(store.retrieve("anything", 3, &vec![]).is_empty());
    assert!(store.inject_context("x", 3, &vec![]).is_none());
}

#[test]
fn retrieve_ranks_matching_chunk_first() {
    let mut store = KnowledgeStore::empty();
    store.add_note("garden.md", "unrelated gardening tips about tomatoes.\n");
    store.add_note("notes.md", "OpenLive prefers Piper for open neural TTS voices.\n");
    let query = "which tts voice should openlive use piper";
    let hits = store.retrieve(query, 2, &scores_for(&store, query));
    assert_eq!(hits.len(), 1);
    assert!(hits[0].to_ascii_lowercase().contains("piper"));
    let inject = store
        .inject_context("piper neural tts", 1, &scores_for(&store, "piper neural tts"))
        .expect("context");
    assert!(inject.contains("Relevant operator knowledge"));
}

#[test]
fn retrieve_orders_by_score_then_load_order() {
    let mut store = KnowledgeStore::empty();
    store.add_note("a", "alpha words here\n");
    store.add_note("b", "beta words here\n");
    store.add_note("c", "gamma words here\n");
    let s = vec![1.0f32.to_bits(), 0.0f32.to_bits(), 2.0f32.to_bits()];
    let hits = store.retrieve("alpha", 5, &s);
    assert_eq!(hits, vec!["[c#0] gamma words here", "[a#0] alpha words here"]);
    let tie = vec![1.0f32.to_bits(), 1.0f32.to_bits()];
    assert_eq!(store.retrieve("alpha", 1, &tie), vec!["[a#0] alpha words here"]);
    assert!(store.retrieve("alpha", 0, &s).is_empty());
    assert!(store.retrieve("a an", 3, &s).is_empty());
}
