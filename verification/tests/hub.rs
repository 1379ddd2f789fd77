use pi_mobile_ui::hub::{
    behavior_name, check_capacity, list_sessions, list_sessions_at, plan_prompt,
    open_step, running_runtime, runtime_summary, runtime_summary_at, spawn_target, HubError,
    LiveSession, OpenStep,
};
use pi_mobile_ui::protocol::{PromptBehavior, SessionSummary};

fn summary(id: &str, modified: &str, path: Option<&str>) -> SessionSummary {
    SessionSummary {
        catalog_id: id.to_string(),
        runtime_id: None,
        title: format!("title {id}"),
        cwd: "/w".to_string(),
        created_at: "c".to_string(),
        modified_at: modified.to_string(),
        message_count: 3,
        running: false,
        path: path.map(str::to_string),
    }
}

fn live(id: &str, file: Option<&str>, title: &str) -> LiveSession {
    LiveSession {
        runtime_id: id.to_string(),
        cwd: "/run".to_string(),
        session_file: file.map(str::to_string),
        title: title.to_string(),
    }
}

#[test]
fn capacity_is_refused_at_the_limit() {
    assert!(check_capacity(0, 8).is_ok());
    assert!(check_capacity(7, 8).is_ok());
    match check_capacity(8, 8) {
        Err(e) => assert_eq!(e.message(), "the live session limit (8) has been reached"),
        Ok(()) => panic!("limit not enforced"),
    }
    assert!(check_capacity(0, 0).is_err());
}

#[test]
fn hub_error_messages() {
    assert_eq!(HubError::NotFound.message(), "session not found");
    assert_eq!(HubError::PathUnavailable.message(), "session path is unavailable");
    assert_eq!(HubError::NotRunning.message(), "session is not running");
    assert_eq!(HubError::EmptyMessage.message(), "message cannot be empty");
    assert_eq!(HubError::LimitReached { limit: 120 }.message(), "the live session limit (120) has been reached");
}

#[test]
fn running_summary_takes_catalog_id_by_file() {
    let catalog = vec![summary("cat-a", "2024", Some("/s/a.jsonl"))];
    let r = runtime_summary_at(&live("rt-1", Some("/s/a.jsonl"), "T"), &catalog, "c0", "m0");
    assert_eq!(r.catalog_id, "cat-a");
    assert_eq!(r.runtime_id.as_deref(), Some("rt-1"));
    assert_eq!(r.title, "T");
    assert_eq!(r.cwd, "/run");
    assert_eq!(r.created_at, "c0");
    assert_eq!(r.modified_at, "m0");
    assert_eq!(r.message_count, 0);
    assert!(r.running);
    let r = runtime_summary_at(&live("rt-2", None, "T"), &catalog, "c", "m");
    assert_eq!(r.catalog_id, "rt-2");
    let r = runtime_summary(&live("rt-3", Some("/s/b.jsonl"), "T"), &catalog);
    assert_eq!(r.catalog_id, "rt-3");
    assert!(!r.created_at.is_empty());
    assert!(r.created_at.len() >= 25 && r.created_at.ends_with("+00:00"));
    assert!(r.modified_at.ends_with("+00:00"));
}

#[test]
fn list_marks_running_sessions_and_adds_the_others() {
    let catalog = vec![
        summary("a", "2024-01-01", Some("/s/a.jsonl")),
        summary("b", "2024-02-01", Some("/s/b.jsonl")),
    ];
    let lives = vec![
        live("r1", Some("/s/a.jsonl"), "first"),
        live("r2", Some("/s/new.jsonl"), "fresh"),
        live("r3", Some("/s/a.jsonl"), "second"),
    ];
    let list = list_sessions_at(catalog, &lives, "2025-01-01");
    let ids: Vec<&str> = list.iter().map(|s| s.catalog_id.as_str()).collect();
    assert_eq!(ids, vec!["r2", "b", "a"]);
    let a = &list[2];
    assert!(a.running);
    assert_eq!(a.runtime_id.as_deref(), Some("r3"));
    assert_eq!(a.title, "second");
    assert!(!list[1].running);
    assert_eq!(list[0].title, "fresh");
    assert_eq!(list[0].path.as_deref(), Some("/s/new.jsonl"));
}

#[test]
fn list_now_lists_every_running_session() {
    let lives = vec![live("r1", None, "x")];
    let list = list_sessions(Vec::new(), &lives);
    assert_eq!(list.len(), 1);
    assert_eq!(list[0].runtime_id.as_deref(), Some("r1"));
}

#[test]
fn running_sessions_without_a_file_are_listed_once() {
    let lives = vec![live("r1", None, "x"), live("r2", None, "y")];
    let list = list_sessions_at(Vec::new(), &lives, "t");
    assert_eq!(list.len(), 1);
    assert_eq!(list[0].catalog_id, "r1");
}

#[test]
fn opening_finds_running_or_resumable_sessions() {
    let mut s = summary("a", "1", Some("/s/a.jsonl"));
    s.runtime_id = Some("r9".to_string());
    let list = vec![s, summary("b", "1", Some("/s/b.jsonl"))];
    assert_eq!(running_runtime(&list, "a").as_deref(), Some("r9"));
    assert_eq!(running_runtime(&list, "b"), None);
    assert_eq!(running_runtime(&list, "z"), None);
    let fresh = vec![summary("b", "1", Some("/s/b.jsonl")), summary("c", "1", None)];
    match spawn_target(&fresh, "b") {
        Ok((path, title)) => {
            assert_eq!(path, "/s/b.jsonl");
            assert_eq!(title, "title b");
        },
        Err(e) => panic!("{}", e.message()),
    }
    assert!(matches!(spawn_target(&fresh, "c"), Err(HubError::PathUnavailable)));
    assert!(matches!(spawn_target(&fresh, "z"), Err(HubError::NotFound)));
}

#[test]
fn prompts_title_untitled_sessions() {
    let p = plan_prompt("  deploy\nthe app ", "新对话", PromptBehavior::FollowUp).unwrap();
    assert_eq!(p.new_title.as_deref(), Some("deploy the app"));
    assert_eq!(p.behavior, "follow_up");
    let p = plan_prompt("hi", "Named", PromptBehavior::Normal).unwrap();
    assert_eq!(p.new_title, None);
    assert_eq!(p.behavior, "normal");
    assert!(matches!(plan_prompt(" \n\t", "新对话", PromptBehavior::Steer), Err(HubError::EmptyMessage)));
    assert_eq!(behavior_name(PromptBehavior::Steer), "steer");
    assert_eq!(PromptBehavior::default(), PromptBehavior::Normal);
}

#[test]
fn opening_a_running_session_reuses_it_even_at_the_limit() {
    let mut running = summary("c1", "2", Some("/s/a.jsonl"));
    running.runtime_id = Some("r1".to_string());
    running.running = true;
    let sessions = vec![summary("c0", "1", Some("/s/b.jsonl")), running];
    match open_step(&sessions, "c1", 8, 8) {
        Ok(OpenStep::Running { runtime_id }) => assert_eq!(runtime_id, "r1"),
        other => panic!("unexpected {other:?}"),
    }
    assert!(matches!(open_step(&sessions, "c0", 7, 8), Ok(OpenStep::Start)));
    match open_step(&sessions, "c0", 8, 8) {
        Err(e) => assert_eq!(e.message(), "the live session limit (8) has been reached"),
        other => panic!("unexpected {other:?}"),
    }
}

#[test]
fn session_files_are_matched_by_path_components() {
    let catalog = vec![summary("c1", "2024", Some("/a//s.jsonl"))];
    let lives = vec![live("r1", Some("/a/s.jsonl"), "Running")];
    let list = list_sessions_at(catalog, &lives, "now");
    assert_eq!(list.len(), 1);
    assert!(list[0].running);
    assert_eq!(list[0].runtime_id, Some("r1".to_string()));
    let catalog = vec![summary("c1", "2024", Some("./a/s.jsonl"))];
    let lives = vec![live("r1", Some("a/s.jsonl"), "Running")];
    let list = list_sessions_at(catalog, &lives, "now");
    assert_eq!(list.len(), 2);
}
