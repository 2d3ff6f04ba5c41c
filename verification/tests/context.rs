use openlive::context::{
    append_and_context, append_and_context_at, clear_session, context_only, context_only_at, session_count_at,
    session_stats, SessionContextStore, MAX_SESSIONS, CONTEXT_TTL_MS, MAX_TURNS_PER_SESSION,
};

#[test]
fn rolls_context() {
    let mut store = SessionContextStore::new();
    let id = "test-sess-1";
    clear_session(&mut store, id);
    append_and_context(&mut store, id, "user", "hello", 6);
    let ctx = append_and_context(&mut store, id, "assistant", "hi there", 6);
    assert!(ctx.contains("hello"));
    assert!(ctx.contains("hi there"));
    clear_session(&mut store, id);
    assert_eq!(context_only(&mut store, id, 6), "");
}

#[test]
fn context_lists_role_lines_in_order() {
    let mut store = SessionContextStore::new();
    append_and_context_at(&mut store, "s", "user", "  hello  ", 6, 1_000);
    let ctx = append_and_context_at(&mut store, "s", "assistant", "hi", 6, 2_000);
    assert_eq!(ctx, "user: hello\nassistant: hi");
}

#[test]
fn context_keeps_only_the_requested_tail() {
    let mut store = SessionContextStore::new();
    for i in 0..30u64 {
        append_and_context_at(&mut store, "s", "user", &format!("turn {i}"), 6, 10 + i);
    }
    let ctx = context_only_at(&mut store, "s", 2, 100);
    assert_eq!(ctx, "user: turn 28\nuser: turn 29");
    let all = context_only_at(&mut store, "s", 1_000, 100);
    assert_eq!(all.lines().count(), MAX_TURNS_PER_SESSION);
}

#[test]
fn blank_ids_and_texts_store_nothing() {
    let mut store = SessionContextStore::new();
    assert_eq!(append_and_context_at(&mut store, "   ", "user", "hello", 6, 0), "");
    assert_eq!(append_and_context_at(&mut store, "s", "user", "   ", 6, 0), "");
    assert_eq!(session_count_at(&mut store, 0), 0);
}

#[test]
fn idle_sessions_expire() {
    let mut store = SessionContextStore::new();
    append_and_context_at(&mut store, "s", "user", "hello", 6, 0);
    assert_eq!(session_count_at(&mut store, CONTEXT_TTL_MS - 1), 1);
    assert_eq!(context_only_at(&mut store, "s", 6, CONTEXT_TTL_MS * 2), "");
    assert_eq!(session_count_at(&mut store, CONTEXT_TTL_MS * 2), 0);
}

#[test]
fn stats_report_live_sessions_and_caps() {
    let mut store = SessionContextStore::new();
    append_and_context(&mut store, "stats-a", "user", "hello", 4);
    append_and_context(&mut store, "stats-b", "user", "hi", 4);
    let stats = session_stats(&mut store);
    assert_eq!(stats.sessions, 2);
    assert_eq!(stats.max_sessions, MAX_SESSIONS);
    assert_eq!(stats.max_turns, MAX_TURNS_PER_SESSION);
}
