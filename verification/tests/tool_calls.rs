use openlive::agent::AgentClass;
use openlive::pending::{peek, PendingKind, PendingStore};
use openlive::agent::Citation;
use openlive::pool::PoolAgentResult;
use openlive::tool_calls::{deep_search_reply, list_files_reply, plan_tool_call, pool_reply, queue_confirmation, ArgValue, ToolAction, ToolArgs};

fn args() -> ToolArgs {
    ToolArgs {
        query: ArgValue::Missing,
        url: ArgValue::Missing,
        engine: ArgValue::Missing,
        name: ArgValue::Missing,
        path: ArgValue::Missing,
        content: ArgValue::Missing,
        fact: ArgValue::Missing,
        text: ArgValue::Missing,
        expression: ArgValue::Missing,
        max_links: None,
        width: None,
        height: None,
        agents: None,
    }
}

fn text(s: &str) -> ArgValue {
    ArgValue::Text(s.to_owned())
}

#[test]
fn class_refuses_tools_it_lacks() {
    assert_eq!(
        plan_tool_call("write_file", &args(), AgentClass::Safe, false),
        ToolAction::Reply("tool 'write_file' is not allowed for agent class 'safe'".to_owned())
    );
}

#[test]
fn empty_arguments_are_errors() {
    let a = args();
    assert_eq!(plan_tool_call("web_search", &a, AgentClass::General, false), ToolAction::Reply("error: empty query".to_owned()));
    assert_eq!(plan_tool_call("browse_url", &a, AgentClass::General, false), ToolAction::Reply("error: empty url".to_owned()));
    assert_eq!(plan_tool_call("save_note", &a, AgentClass::General, false), ToolAction::Reply("error: empty content".to_owned()));
    assert_eq!(plan_tool_call("remember_fact", &a, AgentClass::General, false), ToolAction::Reply("error: empty fact".to_owned()));
    assert_eq!(plan_tool_call("delete_file", &a, AgentClass::General, false), ToolAction::Reply("error: empty path".to_owned()));
}

#[test]
fn numeric_arguments_are_clamped() {
    let mut a = args();
    a.url = text(" https://example.com ");
    a.width = Some(10_000);
    a.height = Some(1);
    assert_eq!(
        plan_tool_call("screenshot_url", &a, AgentClass::General, false),
        ToolAction::Screenshot { url: "https://example.com".to_owned(), width: 2560, height: 240 }
    );
    a.max_links = Some(99);
    assert_eq!(
        plan_tool_call("browse_site", &a, AgentClass::General, false),
        ToolAction::BrowseSite { url: "https://example.com".to_owned(), max_links: 5 }
    );
    let mut p = args();
    p.query = text("rust");
    assert_eq!(
        plan_tool_call("research_pool", &p, AgentClass::General, false),
        ToolAction::ResearchPool { query: "rust".to_owned(), agents: 4 }
    );
    p.agents = Some(0);
    assert_eq!(
        plan_tool_call("research_pool", &p, AgentClass::General, false),
        ToolAction::ResearchPool { query: "rust".to_owned(), agents: 1 }
    );
    assert_eq!(
        plan_tool_call("deep_search", &p, AgentClass::Researcher, false),
        ToolAction::DeepSearch {
            queries: vec![
                "rust".to_owned(),
                "rust overview definition".to_owned(),
                "rust examples use cases".to_owned(),
                "rust vs alternatives".to_owned(),
            ]
        }
    );
}

#[test]
fn destructive_file_calls_wait_for_approval() {
    let mut a = args();
    a.path = text(" notes.md ");
    a.content = text("héllo");
    assert_eq!(
        plan_tool_call("write_file", &a, AgentClass::Coder, false),
        ToolAction::WriteFile { path: "notes.md".to_owned(), content: "héllo".to_owned() }
    );
    assert_eq!(
        plan_tool_call("write_file", &a, AgentClass::Coder, true),
        ToolAction::ConfirmWrite {
            path: "notes.md".to_owned(),
            content: "héllo".to_owned(),
            prompt: "Overwrite existing sandbox file “notes.md”?".to_owned(),
            reply: "CONFIRM_REQUIRED: overwrite “notes.md” (6 bytes). Waiting for user approval.".to_owned(),
        }
    );
    assert_eq!(
        plan_tool_call("delete_file", &a, AgentClass::General, false),
        ToolAction::ConfirmDelete {
            path: "notes.md".to_owned(),
            reply: "CONFIRM_REQUIRED: delete “notes.md”. Waiting for user approval.".to_owned(),
        }
    );
}

#[test]
fn note_name_falls_back_to_path_then_default() {
    let mut a = args();
    a.content = text("x");
    assert_eq!(
        plan_tool_call("save_note", &a, AgentClass::General, false),
        ToolAction::SaveNote { name: "note".to_owned(), content: "x".to_owned() }
    );
    a.path = text(" p.md ");
    assert_eq!(
        plan_tool_call("save_note", &a, AgentClass::General, false),
        ToolAction::SaveNote { name: "p.md".to_owned(), content: "x".to_owned() }
    );
    a.name = ArgValue::Other;
    assert_eq!(
        plan_tool_call("save_note", &a, AgentClass::General, false),
        ToolAction::SaveNote { name: "note".to_owned(), content: "x".to_owned() }
    );
}

#[test]
fn confirmations_are_queued_and_found() {
    let mut store = PendingStore::new();
    let mut a = args();
    a.path = text("notes.md");
    a.content = text("v2");
    let plan = plan_tool_call("write_file", &a, AgentClass::General, true);
    let (reply, action) = queue_confirmation(&mut store, &plan).expect("queued");
    assert_eq!(reply, "CONFIRM_REQUIRED: overwrite “notes.md” (2 bytes). Waiting for user approval.");
    assert_eq!(action.kind, PendingKind::WriteFile);
    assert_eq!(action.path, "notes.md");
    assert_eq!(action.content.as_deref(), Some("v2"));
    assert_eq!(peek(&mut store, &action.id).map(|p| p.id), Some(action.id.clone()));
    let plan = plan_tool_call("delete_file", &a, AgentClass::General, false);
    let (_, del) = queue_confirmation(&mut store, &plan).expect("queued");
    assert_eq!(del.kind, PendingKind::DeleteFile);
    assert_eq!(store.len(), 2);
    let plain = plan_tool_call("get_time", &a, AgentClass::General, false);
    assert!(queue_confirmation(&mut store, &plain).is_none());
    assert_eq!(store.len(), 2);
}

fn cite(t: &str) -> Citation {
    Citation { title: t.to_owned(), url: format!("https://{t}"), snippet: String::new() }
}

#[test]
fn deep_search_merges_numbered_answers() {
    let outcomes = vec![
        Ok(("alpha".to_owned(), vec![cite("a")])),
        Err("timeout".to_owned()),
        Ok(("beta".to_owned(), vec![cite("b"), cite("c")])),
    ];
    let (text, sources) = deep_search_reply(&outcomes);
    assert_eq!(text, "[source 1] alpha\n\n---\n\n[source 3] beta");
    assert_eq!(sources, vec![cite("a"), cite("b"), cite("c")]);
    let failed: Vec<Result<(String, Vec<Citation>), String>> = vec![Err("down".to_owned()), Err("x".to_owned())];
    assert_eq!(deep_search_reply(&failed).0, "primary search error: down");
    assert_eq!(deep_search_reply(&Vec::new()).0, "deep_search found no results");
}

#[test]
fn listing_and_pool_replies() {
    assert_eq!(list_files_reply(&Ok(vec![])), "workspace is empty");
    assert_eq!(list_files_reply(&Ok(vec!["a.md".to_owned(), "b/".to_owned()])), "a.md\nb/");
    assert_eq!(list_files_reply(&Err("denied".to_owned())), "list_files error: denied");
    let r = |i: usize, t: Option<&str>| PoolAgentResult {
        index: i,
        intent: String::new(),
        status: "completed".to_owned(),
        result: t.map(str::to_owned),
        error: None,
        tools_used: vec![],
    };
    let results = vec![r(0, Some("a")), r(1, None), r(2, Some("b")), r(3, Some("c")), r(4, Some("d"))];
    assert_eq!(pool_reply(&None, &results), "a\n\nb\n\nc");
    assert_eq!(pool_reply(&Some("syn".to_owned()), &results), "syn");
}
