use openlive::pool::{
    derive_angles, finish_pool, plan_pool_tasks, pool_search_query, pool_size_of, sort_by_index,
    synthesize_results, pool_limits, PoolAgentResult, PoolRequest, PoolTask, MAX_AGENTS,
};

fn result(index: usize, status: &str, text: Option<&str>) -> PoolAgentResult {
    PoolAgentResult {
        index,
        intent: format!("angle {index}"),
        status: status.to_owned(),
        result: text.map(str::to_owned),
        error: None,
        tools_used: vec!["web_search".to_owned()],
    }
}

#[test]
fn derives_clamped_angles() {
    let a = derive_angles("what is an agent", 3);
    assert_eq!(a.len(), 3);
    assert!(a[0].contains("agent"));
}

#[test]
fn caps_at_max() {
    let a = derive_angles("x", 100);
    assert_eq!(a.len(), MAX_AGENTS);
}

#[test]
fn derive_angles_gives_at_least_one() {
    assert_eq!(derive_angles("topic", 0).len(), 1);
}

#[test]
fn pool_size_defaults_and_clamps() {
    assert_eq!(pool_size_of(None), 4);
    assert_eq!(pool_size_of(Some(0)), 1);
    assert_eq!(pool_size_of(Some(7)), 7);
    assert_eq!(pool_size_of(Some(500)), MAX_AGENTS);
}

#[test]
fn sort_by_index_orders_results() {
    let sorted = sort_by_index(vec![result(2, "completed", None), result(0, "error", None), result(1, "completed", None)]);
    let idx: Vec<usize> = sorted.iter().map(|r| r.index).collect();
    assert_eq!(idx, vec![0, 1, 2]);
}

#[test]
fn synthesis_frames_distinct_answer_lines() {
    let rs = vec![
        result(0, "completed", Some("Piper is an open neural TTS engine.\nmore")),
        result(1, "completed", Some("Piper is an open neural TTS engine.")),
        result(2, "completed", Some("short")),
    ];
    let s = synthesize_results("tts", &rs).expect("synthesis");
    assert!(s.starts_with("On “tts”: "));
    assert!(s.contains("Piper is an open neural TTS engine."));
    assert!(synthesize_results("tts", &[result(0, "completed", Some("tiny"))]).is_none());
    let cjk = synthesize_results("语音", &rs).expect("synthesis");
    assert!(cjk.starts_with("关于「语音」："));
}

#[test]
fn finish_pool_reports_error_when_nobody_answered() {
    let p = finish_pool("p1".to_owned(), "q", 4, 2, vec![result(1, "error", None), result(0, "completed", None)]);
    assert_eq!(p.status, "error");
    assert_eq!(p.results[0].index, 0);
    assert!(p.synthesis.is_none());
    let ok = finish_pool("p2".to_owned(), "q", 4, 1, vec![result(0, "completed", Some("A long enough answer line."))]);
    assert_eq!(ok.status, "completed");
    assert!(ok.synthesis.is_some());
}

#[test]
fn plan_uses_request_tasks_up_to_the_pool_size() {
    let req = PoolRequest {
        intent: "parent".to_owned(),
        tasks: vec![
            PoolTask { intent: "a".to_owned(), thought_depth: None },
            PoolTask { intent: "b".to_owned(), thought_depth: None },
            PoolTask { intent: "c".to_owned(), thought_depth: None },
        ],
        max_agents: Some(2),
        thought_depth: None,
    };
    let tasks = plan_pool_tasks(&req);
    assert_eq!(tasks.len(), 2);
    assert_eq!(tasks[0].intent, "a");
    assert_eq!(tasks[1].intent, "b");
}

#[test]
fn search_query_strips_search_prefix() {
    assert_eq!(pool_search_query("  search rust verus "), "rust verus");
}

#[test]
fn pool_limits_report_caps_and_modes() {
    let limits = pool_limits();
    assert_eq!(limits.max_agents, 50);
    assert_eq!(limits.default_pool_size, 4);
    assert_eq!(limits.modes, vec!["search_workers".to_owned(), "llm_agents".to_owned()]);
}
