use openlive::agent::{voice_confirm_at, ConfirmIntent, VoiceConfirmStep};
use openlive::pending::{
    execute_approved, list_pending, list_pending_at, peek, peek_at, queue_delete_file, queue_write_file,
    reject, reject_at, sandbox_operation, take_approved_at, take_at, PendingAction, PendingKind, PendingStore,
    SandboxOp, MAX_PENDING, PENDING_TTL_MS,
};

fn action(id: &str, created: u64) -> PendingAction {
    PendingAction {
        id: id.to_owned(),
        kind: PendingKind::WriteFile,
        path: format!("{id}.txt"),
        content: Some("body".to_owned()),
        message: "why".to_owned(),
        preview: Some("body".to_owned()),
        created_at_ms: created,
    }
}

#[test]
fn queued_write_can_be_peeked_then_taken_once() {
    let mut store = PendingStore::new();
    let a = queue_write_file(&mut store, "notes/a.txt", "hello world", "save note");
    assert_eq!(a.kind, PendingKind::WriteFile);
    assert_eq!(a.preview.as_deref(), Some("hello world"));
    assert_eq!(a.id.len(), 36);
    assert_eq!(peek(&mut store, &a.id).map(|x| x.path), Some("notes/a.txt".to_owned()));
    match execute_approved(&mut store, &a.id) {
        Ok(SandboxOp::Write { path, content }) => {
            assert_eq!(path, "notes/a.txt");
            assert_eq!(content, "hello world");
        },
        _ => panic!("expected a write"),
    }
    assert_eq!(
        execute_approved(&mut store, &a.id).err().as_deref(),
        Some("pending action not found or expired")
    );
}

#[test]
fn queued_delete_has_a_message_and_rejects_once() {
    let mut store = PendingStore::new();
    let a = queue_delete_file(&mut store, "old.txt");
    assert_eq!(a.message, "Delete sandbox file “old.txt”?");
    assert!(a.content.is_none());
    assert_eq!(list_pending(&mut store).len(), 1);
    assert!(reject(&mut store, &a.id).is_ok());
    assert_eq!(reject(&mut store, &a.id), Err("pending action not found or expired".to_owned()));
    assert!(list_pending(&mut store).is_empty());
}

#[test]
fn entries_expire_after_the_ttl() {
    let mut store = PendingStore::new();
    store.insert_at(action("a", 0), 0);
    assert!(peek_at(&mut store, "a", PENDING_TTL_MS - 1).is_some());
    assert!(peek_at(&mut store, "a", PENDING_TTL_MS).is_none());
    assert!(take_at(&mut store, "a", 0).is_none());
}

#[test]
fn store_keeps_at_most_the_newest_entries() {
    let mut store = PendingStore::new();
    for i in 0..(MAX_PENDING as u64 + 3) {
        store.insert_at(action(&format!("id{i}"), i), i);
    }
    assert_eq!(store.len(), MAX_PENDING + 1);
    assert!(peek_at(&mut store, "id0", 100).is_none());
    assert!(peek_at(&mut store, "id3", 100).is_some());
}

#[test]
fn listing_is_ordered_by_creation_time() {
    let mut store = PendingStore::new();
    store.insert_at(action("late", 30), 3);
    store.insert_at(action("early", 10), 4);
    store.insert_at(action("mid", 20), 5);
    let ids: Vec<String> = list_pending_at(&mut store, 6).into_iter().map(|a| a.id).collect();
    assert_eq!(ids, vec!["early", "mid", "late"]);
}

#[test]
fn inserting_the_same_id_replaces_the_entry() {
    let mut store = PendingStore::new();
    store.insert_at(action("x", 1), 1);
    let mut again = action("x", 2);
    again.path = "other.txt".to_owned();
    store.insert_at(again, 2);
    assert_eq!(store.len(), 1);
    assert!(store.ids_are_distinct());
    assert_eq!(take_approved_at(&mut store, "x", 3).map(|a| a.path), Ok("other.txt".to_owned()));
    assert_eq!(reject_at(&mut store, "x", 3), Err("pending action not found or expired".to_owned()));
}

#[test]
fn delete_actions_become_delete_operations() {
    let mut a = action("d", 0);
    a.kind = PendingKind::DeleteFile;
    match sandbox_operation(a) {
        SandboxOp::Delete { path } => assert_eq!(path, "d.txt"),
        SandboxOp::Write { .. } => panic!("expected a delete"),
    }
    let mut w = action("w", 0);
    w.content = None;
    match sandbox_operation(w) {
        SandboxOp::Write { content, .. } => assert_eq!(content, ""),
        SandboxOp::Delete { .. } => panic!("expected a write"),
    }
}

#[test]
fn voice_confirmation_acts_on_the_newest_action() {
    let mut store = PendingStore::new();
    let (step, chosen) = voice_confirm_at(&mut store, ConfirmIntent::Approve, 1_000);
    assert!(matches!(step, VoiceConfirmStep::NothingPending));
    assert!(chosen.is_none());
    let older = queue_write_file(&mut store, "a.txt", "one", "Overwrite a.txt?");
    let newer = queue_delete_file(&mut store, "b.txt");
    let now = newer.created_at_ms.max(older.created_at_ms);
    let (step, chosen) = voice_confirm_at(&mut store, ConfirmIntent::Deny, now);
    assert!(matches!(step, VoiceConfirmStep::Rejected));
    let chosen = chosen.expect("chosen");
    assert!(chosen.created_at_ms >= older.created_at_ms);
    assert_eq!(store.len(), 1);
    let (step, chosen2) = voice_confirm_at(&mut store, ConfirmIntent::Approve, now);
    assert!(matches!(step, VoiceConfirmStep::Execute(_)));
    assert_ne!(chosen2.expect("second").id, chosen.id);
    assert_eq!(store.len(), 0);
}
