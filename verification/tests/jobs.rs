use openlive::jobs::{plan_tracked_tasks, PoolJobStore, POOL_JOB_TTL_MS};
use openlive::pool::{finish_pool, PoolAgentResult, PoolRequest, PoolTask};

fn result(index: usize, status: &str, text: Option<&str>) -> PoolAgentResult {
    PoolAgentResult {
        index,
        intent: format!("angle {index}"),
        status: status.to_owned(),
        result: text.map(str::to_owned),
        error: None,
        tools_used: vec![],
    }
}

#[test]
fn job_lifecycle_tracks_progress_and_finish() {
    let mut store = PoolJobStore::new();
    store.begin_at("p1", 3, "parent", 0);
    let s = store.get_status_at("p1", 10).expect("running");
    assert_eq!(s.status, "running");
    assert_eq!(s.total, 3);
    assert_eq!(s.completed, 0);

    store.record_progress("p1", 1, result(2, "completed", Some("third")));
    store.record_progress("p1", 2, result(0, "error", None));
    let s = store.get_status_at("p1", 20).expect("running");
    assert_eq!(s.completed, 2);
    let idx: Vec<usize> = s.partial.iter().map(|r| r.index).collect();
    assert_eq!(idx, vec![0, 2]);

    let p = finish_pool("p1".to_owned(), "parent", 3, 3, vec![result(1, "error", None), result(0, "error", None)]);
    store.finish("p1", &p);
    let s = store.get_status_at("p1", 30).expect("finished");
    assert_eq!(s.status, "error");
    assert_eq!(s.completed, 0);
    assert_eq!(s.error.as_deref(), Some("one or more agents failed"));
    assert_eq!(s.partial.len(), 2);
}

#[test]
fn finished_ok_job_keeps_no_error() {
    let mut store = PoolJobStore::new();
    store.begin_at("p", 1, "q", 0);
    let p = finish_pool("p".to_owned(), "q", 1, 1, vec![result(0, "completed", Some("A long enough answer line."))]);
    store.finish("p", &p);
    let s = store.get_status_at("p", 1).expect("kept");
    assert_eq!(s.status, "completed");
    assert_eq!(s.completed, 1);
    assert!(s.error.is_none());
    assert!(s.synthesis.is_some());
}

#[test]
fn jobs_are_forgotten_after_fifteen_minutes() {
    let mut store = PoolJobStore::new();
    store.begin_at("p", 1, "q", 5);
    assert!(store.get_status_at("p", 5 + POOL_JOB_TTL_MS - 1).is_some());
    assert!(store.get_status_at("p", 5 + POOL_JOB_TTL_MS).is_none());
}

#[test]
fn unknown_jobs_are_left_alone() {
    let mut store = PoolJobStore::new();
    store.record_progress("nope", 1, result(0, "completed", None));
    assert!(store.get_status_at("nope", 0).is_none());
}

#[test]
fn restarting_an_id_replaces_the_job() {
    let mut store = PoolJobStore::new();
    store.begin_at("p", 1, "first", 0);
    store.record_progress("p", 1, result(0, "completed", None));
    store.begin_at("p", 4, "second", 1);
    let s = store.get_status_at("p", 2).expect("kept");
    assert_eq!(s.intent, "second");
    assert_eq!(s.total, 4);
    assert!(s.partial.is_empty());
}

#[test]
fn tracked_plan_takes_tasks_or_angles() {
    let req = PoolRequest {
        intent: "what is verus".to_owned(),
        tasks: vec![],
        max_agents: Some(3),
        thought_depth: None,
    };
    let plan = plan_tracked_tasks(&req);
    assert_eq!(plan.len(), 3);
    assert_eq!(plan[2].0, 2);
    let req = PoolRequest {
        intent: "p".to_owned(),
        tasks: vec![PoolTask { intent: "only".to_owned(), thought_depth: None }],
        max_agents: None,
        thought_depth: None,
    };
    let plan = plan_tracked_tasks(&req);
    assert_eq!(plan, vec![(0, "only".to_owned())]);
}
