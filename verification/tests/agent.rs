use openlive::agent::{
    confirm_intent_of, extract_stated_name, is_false_incapability, last_user_line, looks_like_research,
    AgentClass, AgentKind, ConfirmIntent, agent_error_code, run_preflight, tool_definitions,
    tool_definitions_for, AgentRequest, next_turn_step, dialog_context, run_answer, turn_tags, Citation, turn_budget, TurnFacts, TurnStep,
};

#[test]
fn safe_blocks_write() {
    assert!(!AgentClass::Safe.allows("write_file"));
    assert!(AgentClass::Safe.allows("read_file"));
}

#[test]
fn researcher_blocks_files() {
    assert!(!AgentClass::Researcher.allows("write_file"));
    assert!(AgentClass::Researcher.allows("web_search"));
}

#[test]
fn kind_maps() {
    assert!(matches!(AgentKind::parse("none"), AgentKind::Disabled));
    assert!(matches!(AgentKind::parse("opencode"), AgentKind::Internal));
}

#[test]
fn class_names_round_trip() {
    for c in [AgentClass::General, AgentClass::Researcher, AgentClass::Coder, AgentClass::Safe] {
        assert_eq!(AgentClass::parse(c.as_str()), c);
    }
    assert_eq!(AgentClass::default(), AgentClass::General);
    assert_eq!(AgentClass::parse("  ReadOnly "), AgentClass::Safe);
    assert_eq!(AgentClass::parse("unknown-class"), AgentClass::General);
}

#[test]
fn stated_name_is_extracted() {
    assert_eq!(extract_stated_name("my name is Alice").as_deref(), Some("Alice"));
    assert_eq!(extract_stated_name("what's the weather"), None);
}

#[test]
fn last_user_line_finds_latest_user_turn() {
    let ctx = "user: first\nassistant: reply\nuser: second";
    assert_eq!(last_user_line(ctx).as_deref(), Some("second"));
    assert_eq!(last_user_line("assistant: only"), None);
}

#[test]
fn research_and_incapability_detection() {
    assert!(looks_like_research("research the history of jazz"));
    assert!(!looks_like_research("hello"));
    assert!(is_false_incapability("I don't have access to the internet"));
    assert!(!is_false_incapability("Here is the answer."));
}

#[test]
fn confirm_intent_reads_approve_and_deny() {
    assert_eq!(confirm_intent_of("  Yes please "), Some(ConfirmIntent::Approve));
    assert_eq!(confirm_intent_of("好的"), Some(ConfirmIntent::Approve));
    assert_eq!(confirm_intent_of("Cancel that"), Some(ConfirmIntent::Deny));
    assert_eq!(confirm_intent_of("never mind"), Some(ConfirmIntent::Deny));
    assert!(confirm_intent_of("hello there").is_none());
}

fn request(kind: AgentKind, intent: &str) -> AgentRequest {
    AgentRequest {
        kind,
        intent: intent.to_owned(),
        base_url: None,
        api_key: None,
        model: None,
        thought_depth: None,
        agent_class: None,
        session_id: None,
        prior_context: None,
    }
}

#[test]
fn model_errors_map_to_codes() {
    assert_eq!(agent_error_code(401), "auth");
    assert_eq!(agent_error_code(403), "auth");
    assert_eq!(agent_error_code(429), "rate_limit");
    assert_eq!(agent_error_code(404), "model_not_found");
    assert_eq!(agent_error_code(503), "upstream");
    assert_eq!(agent_error_code(400), "model_error");
    assert_eq!(agent_error_code(0), "config");
}

#[test]
fn run_preflight_refuses_and_plans() {
    let skipped = run_preflight("t1".to_owned(), &request(AgentKind::Disabled, "hi")).expect_err("disabled");
    assert_eq!(skipped.status, "skipped");
    assert_eq!(skipped.error.as_deref(), Some("agent disabled"));
    assert_eq!(skipped.agent_kind, "none");
    assert_eq!(skipped.task_id, "t1");
    let empty = run_preflight("t2".to_owned(), &request(AgentKind::Internal, "   ")).expect_err("empty");
    assert_eq!(empty.status, "error");
    assert_eq!(empty.error.as_deref(), Some("intent is required"));
    assert_eq!(empty.model_code.as_deref(), Some("empty_intent"));
    let mut req = request(AgentKind::Internal, "  find rust news ");
    req.agent_class = Some(" Coder ".to_owned());
    req.thought_depth = Some("DEEP".to_owned());
    req.session_id = Some("  ".to_owned());
    req.model = Some("m".to_owned());
    let plan = run_preflight("t3".to_owned(), &req).expect("plan");
    assert_eq!(plan.class, AgentClass::Coder);
    assert_eq!(plan.depth, "deep");
    assert_eq!(plan.intent, "find rust news");
    assert_eq!(plan.session_id, None);
    let update = plan.settings_update.expect("update");
    assert_eq!(update.model.as_deref(), Some("m"));
    assert_eq!(update.base_url, None);
    let plan = run_preflight("t4".to_owned(), &request(AgentKind::Internal, "x")).expect("plan");
    assert_eq!(plan.class, AgentClass::General);
    assert_eq!(plan.depth, "voice");
    assert!(plan.settings_update.is_none());
}

#[test]
fn tool_definitions_follow_the_class() {
    assert_eq!(tool_definitions().len(), 16);
    for class in [AgentClass::General, AgentClass::Researcher, AgentClass::Coder, AgentClass::Safe] {
        let mut names: Vec<String> = tool_definitions_for(class).into_iter().map(|t| t.name).collect();
        let mut allowed: Vec<String> = class.allowed_tools().iter().map(|s| (*s).to_owned()).collect();
        names.sort();
        allowed.sort();
        assert_eq!(names, allowed);
    }
    let safe = tool_definitions_for(AgentClass::Safe);
    assert_eq!(safe[0].name, "get_time");
    assert_eq!(safe[0].parameters, "{\"type\":\"object\",\"properties\":{}}");
}

fn facts(asks_identity: bool, dialog_answers: bool, math_or_time: bool, looks_like_search: bool, can_chat: bool) -> TurnFacts {
    TurnFacts { asks_identity, dialog_answers, math_or_time, looks_like_search, can_chat }
}

#[test]
fn turns_are_routed_in_order() {
    let none = facts(false, false, false, false, false);
    assert_eq!(next_turn_step("hi", "voice", none, None), TurnStep::Offline);
    let all = facts(true, true, true, true, true);
    assert_eq!(next_turn_step("who are you", "voice", all, None), TurnStep::Identity);
    assert_eq!(next_turn_step("x", "voice", all, Some(TurnStep::Identity)), TurnStep::DialogContext);
    assert_eq!(next_turn_step("x", "voice", all, Some(TurnStep::DialogContext)), TurnStep::BuiltinTools);
    let f = facts(false, false, false, true, true);
    assert_eq!(
        next_turn_step("research the history of rust", "deep", f, None),
        TurnStep::ResearchPool { agents: 4 }
    );
    let long = "research ".repeat(10);
    assert_eq!(next_turn_step(&long, "deep", f, None), TurnStep::ResearchPool { agents: 6 });
    assert_eq!(
        next_turn_step("research the history of rust", "deep", f, Some(TurnStep::ResearchPool { agents: 4 })),
        TurnStep::WebSearch
    );
    assert_eq!(next_turn_step("x", "voice", f, Some(TurnStep::WebSearch)), TurnStep::LlmTools);
    assert_eq!(next_turn_step("x", "voice", f, Some(TurnStep::LlmTools)), TurnStep::Offline);
}

#[test]
fn turn_budget_follows_depth() {
    assert_eq!(turn_budget("deep", "").0, 400);
    assert_eq!(turn_budget("balanced", "").0, 220);
    let (tokens, style) = turn_budget("voice", "user: hi");
    assert_eq!(tokens, 140);
    assert_eq!(
        style,
        "Answer in 1–2 short spoken sentences. Use tools for facts.\n\nRecent conversation (use for continuity; do not repeat unless asked):\nuser: hi"
    );
}

#[test]
fn dialog_context_joins_known_lines() {
    assert_eq!(dialog_context("", "", None), "");
    assert_eq!(dialog_context("Name: Ada", "user: hi", Some("user: hi")), "Name: Ada\nuser: hi");
    assert_eq!(dialog_context("", "user: hi", Some("assistant: yo")), "user: hi\nassistant: yo");
}

#[test]
fn turn_tags_and_answers() {
    assert_eq!(turn_tags(AgentClass::Coder, Some("s1")), vec!["agent", "coder", "turn", "session:s1"]);
    assert_eq!(turn_tags(AgentClass::Safe, None), vec!["agent", "safe", "turn"]);
    let r = run_answer(
        "t".to_owned(),
        "done".to_owned(),
        vec!["web_search".to_owned()],
        vec![Citation { title: "a".to_owned(), url: "u".to_owned(), snippet: String::new() }],
        None,
        AgentClass::Researcher,
        None,
    );
    assert_eq!(r.status, "completed");
    assert_eq!(r.agent_class.as_deref(), Some("researcher"));
    assert_eq!(r.result.as_deref(), Some("done"));
}
