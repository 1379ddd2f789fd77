use pi_mobile_ui::catalog::{
    compact_title, extract_text, find_by_id, message_timestamp, parse_session, scan,
    sort_by_recency, summarize_session, SessionFile,
};
use pi_mobile_ui::json::Json;
use pi_mobile_ui::paths::{file_extension, file_name, is_session_file, same_file};
use pi_mobile_ui::protocol::SessionSummary;

fn s(t: &str) -> Json {
    Json::Str(t.to_string())
}

fn obj(members: Vec<(&str, Json)>) -> Json {
    Json::Object(members.into_iter().map(|(k, v)| (k.to_string(), v)).collect())
}

fn summary(id: &str, modified: &str) -> SessionSummary {
    SessionSummary {
        catalog_id: id.to_string(),
        runtime_id: None,
        title: id.to_string(),
        cwd: String::new(),
        created_at: String::new(),
        modified_at: modified.to_string(),
        message_count: 0,
        running: false,
        path: Some(format!("/s/{id}.jsonl")),
    }
}

#[test]
fn title_is_single_line_and_bounded() {
    let title = compact_title("  hello\nworld   from pi  ");
    assert_eq!(title, "hello world from pi");
}

#[test]
fn title_is_cut_at_the_limit_with_an_ellipsis() {
    let long = "a".repeat(50);
    let title = compact_title(&long);
    assert_eq!(title, format!("{}…", "a".repeat(42)));
    assert_eq!(compact_title(&"b".repeat(42)), "b".repeat(42));
}

#[test]
fn title_of_whitespace_is_the_untitled_name() {
    assert_eq!(compact_title(""), "新对话");
    assert_eq!(compact_title(" \t\n\u{3000} "), "新对话");
}

#[test]
fn title_collapses_unicode_whitespace() {
    assert_eq!(compact_title("你好\u{3000}\u{00a0}世界"), "你好 世界");
}

#[test]
fn compacting_a_title_again_changes_nothing() {
    for input in [
        "  hello\nworld   from pi  ",
        "",
        &"word ".repeat(20),
        &format!("{} tail", "x".repeat(41)),
    ] {
        let once = compact_title(input);
        assert_eq!(compact_title(&once), once);
    }
}

#[test]
fn text_of_content_string_or_text_blocks() {
    assert_eq!(extract_text(&s("hi")), Some("hi".to_string()));
    let blocks = Json::Array(vec![
        obj(vec![("type", s("text")), ("text", s("one"))]),
        obj(vec![("type", s("image")), ("text", s("skip"))]),
        obj(vec![("type", s("text")), ("text", s("two"))]),
    ]);
    assert_eq!(extract_text(&blocks), Some("one\ntwo".to_string()));
    assert_eq!(extract_text(&Json::Array(vec![])), None);
    assert_eq!(extract_text(&Json::Int(3)), None);
}

#[test]
fn timestamp_of_message_milliseconds_or_entry_text() {
    let e = obj(vec![("message", obj(vec![("timestamp", Json::Int(0))]))]);
    assert_eq!(message_timestamp(&e), Some("1970-01-01T00:00:00+00:00".to_string()));
    let e = obj(vec![
        ("message", obj(vec![("timestamp", Json::Int(1_500))])),
        ("timestamp", s("other")),
    ]);
    assert_eq!(message_timestamp(&e), Some("1970-01-01T00:00:01.500+00:00".to_string()));
    let e = obj(vec![("timestamp", s("2024-05-01T10:00:00Z"))]);
    assert_eq!(message_timestamp(&e), Some("2024-05-01T10:00:00Z".to_string()));
    assert_eq!(message_timestamp(&obj(vec![])), None);
}

fn header() -> Option<Json> {
    Some(obj(vec![
        ("type", s("session")),
        ("id", s("abc")),
        ("cwd", s("/work")),
        ("timestamp", s("2024-01-01T00:00:00Z")),
    ]))
}

fn user(text: &str, ts: &str) -> Option<Json> {
    Some(obj(vec![
        ("type", s("message")),
        ("timestamp", s(ts)),
        ("message", obj(vec![("role", s("user")), ("content", s(text))])),
    ]))
}

#[test]
fn session_summary_from_lines() {
    let lines = vec![
        header(),
        None,
        user("  first   question\n", "2024-01-02T00:00:00Z"),
        user("second", "2024-01-03T00:00:00Z"),
    ];
    let r = summarize_session("/s/a.jsonl", &lines, "fallback").unwrap();
    assert_eq!(r.catalog_id, "abc");
    assert_eq!(r.title, "first question");
    assert_eq!(r.cwd, "/work");
    assert_eq!(r.created_at, "2024-01-01T00:00:00Z");
    assert_eq!(r.modified_at, "2024-01-03T00:00:00Z");
    assert_eq!(r.message_count, 2);
    assert!(!r.running);
    assert_eq!(r.runtime_id, None);
    assert_eq!(r.path, Some("/s/a.jsonl".to_string()));
}

#[test]
fn session_name_wins_and_empty_name_clears_it() {
    let named = || Some(obj(vec![("type", s("session_info")), ("name", s("  Plan  "))]));
    let lines = vec![header(), user("question", "t1"), named()];
    assert_eq!(summarize_session("p", &lines, "f").unwrap().title, "Plan");
    let cleared = Some(obj(vec![("type", s("session_info")), ("name", s("   "))]));
    let lines = vec![header(), named(), user("question", "t1"), cleared];
    assert_eq!(summarize_session("p", &lines, "f").unwrap().title, "question");
}

#[test]
fn session_without_messages_is_untitled_with_file_time() {
    let r = summarize_session("p", &vec![header()], "2020-01-01T00:00:00+00:00").unwrap();
    assert_eq!(r.title, "新对话");
    assert_eq!(r.modified_at, "2020-01-01T00:00:00+00:00");
    assert_eq!(r.message_count, 0);
}

#[test]
fn files_that_are_not_sessions_are_rejected() {
    let other = Some(obj(vec![("type", s("message"))]));
    assert!(summarize_session("p", &vec![Some(obj(vec![("type", s("message"))])), header()], "f").is_none());
    assert!(summarize_session("p", &vec![], "f").is_none());
    assert!(summarize_session("p", &vec![None, None], "f").is_none());
    let no_id = Some(obj(vec![("type", s("session"))]));
    assert!(summarize_session("p", &vec![no_id], "f").is_none());
    // a message entry without its message rejects the file
    assert!(summarize_session("p", &vec![header(), other], "f").is_none());
    // a first user message without content rejects the file
    let no_content = Some(obj(vec![
        ("type", s("message")),
        ("message", obj(vec![("role", s("user"))])),
    ]));
    assert!(summarize_session("p", &vec![header(), no_content], "f").is_none());
}

#[test]
fn sorting_puts_newest_first_and_keeps_ties_in_order() {
    let v = vec![
        summary("a", "2024-01-01"),
        summary("b", "2024-03-01"),
        summary("c", "2024-01-01"),
        summary("d", "2024-02-01"),
    ];
    let ids: Vec<String> = sort_by_recency(v).into_iter().map(|s| s.catalog_id).collect();
    assert_eq!(ids, vec!["b", "d", "a", "c"]);
}

fn text_file(path: &str, ts: &str, id: &str) -> SessionFile {
    SessionFile {
        path: path.to_string(),
        lines: vec![
            format!(r#"{{"type":"session","id":"{id}","cwd":"/w"}}"#),
            "not json".to_string(),
            format!(r#"{{"type":"message","timestamp":"{ts}","message":{{"role":"user","content":"hi"}}}}"#),
        ],
        fallback_modified: "x".to_string(),
    }
}

#[test]
fn scan_summarizes_and_orders_files() {
    let junk = SessionFile {
        path: "/j.jsonl".to_string(),
        lines: vec!["{".to_string()],
        fallback_modified: String::new(),
    };
    let files = vec![
        text_file("/a.jsonl", "2024-01-01", "old"),
        junk,
        text_file("/b.jsonl", "2025-01-01", "new"),
    ];
    let ids: Vec<String> = scan(&files).into_iter().map(|s| s.catalog_id).collect();
    assert_eq!(ids, vec!["new", "old"]);
}

#[test]
fn scan_passes_over_files_that_are_not_jsonl() {
    let files = vec![
        text_file("/a.json", "2024-01-01", "json"),
        text_file("/b.jsonl", "2024-01-01", "kept"),
        text_file("/c.jsonl.bak", "2024-01-01", "bak"),
        text_file("/.jsonl", "2024-01-01", "hidden"),
    ];
    let ids: Vec<String> = scan(&files).into_iter().map(|s| s.catalog_id).collect();
    assert_eq!(ids, vec!["kept"]);
}

#[test]
fn session_file_text_is_read_line_by_line() {
    let lines = vec![
        r#"{"type":"session","id":"abc","cwd":"/work","timestamp":"2024-01-01T00:00:00Z"}"#.to_string(),
        "garbage".to_string(),
        r#"{"type":"message","timestamp":"t1","message":{"role":"user","content":[{"type":"text","text":"hello\nthere"}]}}"#.to_string(),
        r#"{"type":"message","message":{"role":"assistant","timestamp":1500}}"#.to_string(),
    ];
    let r = parse_session("/s/a.jsonl", &lines, "f").unwrap();
    assert_eq!(r.catalog_id, "abc");
    assert_eq!(r.title, "hello there");
    assert_eq!(r.message_count, 2);
    assert_eq!(r.modified_at, "1970-01-01T00:00:01.500+00:00");
    assert_eq!(r.cwd, "/work");
    // a first JSON line that is not the header rejects the file
    let lines = vec![r#"{"type":"message"}"#.to_string()];
    assert!(parse_session("p", &lines, "f").is_none());
    // no JSON at all: no header
    assert!(parse_session("p", &vec!["x".to_string()], "f").is_none());
}

#[test]
fn find_by_id_gives_the_first_match() {
    let mut v = vec![summary("a", "1"), summary("b", "2"), summary("b", "3")];
    v[2].title = "later".to_string();
    assert_eq!(find_by_id(&v, "b").unwrap().modified_at, "2");
    assert!(find_by_id(&v, "z").is_none());
}

#[test]
fn extensions_follow_path_rules() {
    assert_eq!(file_extension("/s/a.jsonl"), Some("jsonl".to_string()));
    assert_eq!(file_extension("a.tar.gz"), Some("gz".to_string()));
    assert_eq!(file_extension("dir/file.txt/"), Some("txt".to_string()));
    assert_eq!(file_extension("dir/file.txt/."), Some("txt".to_string()));
    assert_eq!(file_extension(".bashrc"), None);
    assert_eq!(file_extension("a."), Some(String::new()));
    assert_eq!(file_extension("noext"), None);
    assert_eq!(file_extension(".."), None);
    assert_eq!(file_extension("a/b.c/.."), None);
    assert_eq!(file_extension("/"), None);
    assert_eq!(file_name("x/y.z").map(|v| v.into_iter().collect::<String>()), Some("y.z".to_string()));
    assert!(is_session_file("/home/u/.pi/agent/sessions/x/2024.jsonl"));
    assert!(!is_session_file("/s/a.json"));
    assert!(!is_session_file("/s/.jsonl"));
}

#[test]
fn paths_compare_by_components() {
    let p = |t: &str| Some(t.to_string());
    assert!(same_file(&p("/a//s.jsonl"), &p("/a/s.jsonl")));
    assert!(same_file(&p("/a/./s.jsonl/"), &p("/a/s.jsonl")));
    assert!(same_file(&p("./a"), &p(".//a")));
    assert!(!same_file(&p("./a"), &p("a")));
    assert!(!same_file(&p("/a"), &p("a")));
    assert!(!same_file(&p("/a/../b"), &p("/b")));
    assert!(same_file(&None, &None));
    assert!(!same_file(&p("/a"), &None));
}

#[test]
fn lines_that_are_not_json_change_nothing() {
    let json = vec![
        r#"{"type":"session","id":"abc"}"#.to_string(),
        r#"{"type":"message","timestamp":"t1","message":{"role":"user","content":"q"}}"#.to_string(),
    ];
    let mut noisy = vec!["# note".to_string()];
    noisy.push(json[0].clone());
    noisy.push(String::new());
    noisy.push("{broken".to_string());
    noisy.push(json[1].clone());
    noisy.push("tail".to_string());
    let a = parse_session("p", &json, "f").unwrap();
    let b = parse_session("p", &noisy, "f").unwrap();
    assert_eq!((a.catalog_id, a.title, a.message_count, a.modified_at), (b.catalog_id, b.title, b.message_count, b.modified_at));
}
