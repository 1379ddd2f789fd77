use pi_mobile_ui::json::Json;
use pi_mobile_ui::protocol::ServerMessage;
use pi_mobile_ui::rpc::{
    build_request, first_line, launch_args, list_field, new_id, new_request, prompt_params,
    reply_data, response_id, rpc_event, session_cwd, snapshot_entries, stopped_notice,
    strip_record_end, timeline_from_messages, route_record, session_cwd_of, Pending, Routed, REQUEST_TIMEOUT_SECS,
    RpcError, RuntimeState,
};

fn s(t: &str) -> Json {
    Json::Str(t.to_string())
}

fn obj(members: Vec<(&str, Json)>) -> Json {
    Json::Object(members.into_iter().map(|(k, v)| (k.to_string(), v)).collect())
}

fn members(j: &Json) -> Vec<(String, String)> {
    match j {
        Json::Object(ms) => ms
            .iter()
            .map(|(k, v)| {
                let v = match v {
                    Json::Str(t) => t.clone(),
                    other => format!("{other:?}"),
                };
                (k.clone(), v)
            })
            .collect(),
        other => panic!("not an object: {other:?}"),
    }
}

fn pairs(v: &[(&str, &str)]) -> Vec<(String, String)> {
    v.iter().map(|(a, b)| (a.to_string(), b.to_string())).collect()
}

fn is_uuid(t: &str) -> bool {
    let c: Vec<char> = t.chars().collect();
    c.len() == 36
        && c.iter().enumerate().all(|(i, ch)| {
            if [8, 13, 18, 23].contains(&i) {
                *ch == '-'
            } else {
                ch.is_ascii_hexdigit() && !ch.is_ascii_uppercase()
            }
        })
        && c[14] == '4'
        && "89ab".contains(c[19])
}

#[test]
fn request_sets_id_and_type_over_params() {
    let params = obj(vec![("message", s("hi")), ("type", s("old"))]);
    let r = build_request("prompt", params, "id-1");
    assert_eq!(members(&r), pairs(&[("message", "hi"), ("type", "prompt"), ("id", "id-1")]));
    let r = build_request("abort", Json::Null, "x");
    assert_eq!(members(&r), pairs(&[("id", "x"), ("type", "abort")]));
}

#[test]
fn new_request_has_a_fresh_uuid() {
    let (id, body) = new_request("get_state", obj(vec![]));
    assert!(is_uuid(&id), "{id}");
    assert_eq!(members(&body), pairs(&[("id", &id), ("type", "get_state")]));
    let (other, _) = new_request("get_state", obj(vec![]));
    assert_ne!(id, other);
    assert!(is_uuid(&new_id()));
}

#[test]
fn reply_gives_data_or_error() {
    let ok = obj(vec![("success", Json::Bool(true)), ("data", obj(vec![("a", Json::Int(1))]))]);
    match reply_data(&ok) {
        Ok(d) => assert_eq!(members(&d), pairs(&[("a", "Int(1)")])),
        Err(_) => panic!("expected data"),
    }
    let ok_no_data = obj(vec![("success", Json::Bool(true))]);
    assert!(matches!(reply_data(&ok_no_data), Ok(Json::Null)));
    let failed = obj(vec![("success", Json::Bool(false)), ("error", s("no model"))]);
    match reply_data(&failed) {
        Err(e) => assert_eq!(e.message(), "no model"),
        Ok(_) => panic!("expected an error"),
    }
    let odd = obj(vec![("success", s("true"))]);
    match reply_data(&odd) {
        Err(e) => assert_eq!(e.message(), "Pi RPC request failed"),
        Ok(_) => panic!("expected an error"),
    }
}

#[test]
fn rpc_error_messages() {
    assert_eq!(
        RpcError::TimedOut { kind: "prompt".to_string() }.message(),
        "Pi RPC request timed out: prompt"
    );
    assert_eq!(
        RpcError::Closed { kind: "abort".to_string() }.message(),
        "Pi RPC process closed while waiting for abort"
    );
}

#[test]
fn prompt_params_say_how_to_join_a_stream() {
    assert_eq!(members(&prompt_params("m", "normal", false)), pairs(&[("message", "m")]));
    assert_eq!(
        members(&prompt_params("m", "normal", true)),
        pairs(&[("message", "m"), ("streamingBehavior", "steer")])
    );
    assert_eq!(
        members(&prompt_params("m", "follow_up", false)),
        pairs(&[("message", "m"), ("streamingBehavior", "followUp")])
    );
    assert_eq!(
        members(&prompt_params("m", "steer", false)),
        pairs(&[("message", "m"), ("streamingBehavior", "steer")])
    );
}

#[test]
fn lists_and_timeline_fallback() {
    let data = obj(vec![("messages", Json::Array(vec![Json::Int(1), Json::Int(2)]))]);
    assert_eq!(list_field(&data, "messages").len(), 2);
    assert_eq!(list_field(&data, "entries").len(), 0);
    assert_eq!(list_field(&obj(vec![("messages", s("x"))]), "messages").len(), 0);
    let messages = vec![
        obj(vec![("role", s("user")), ("content", s("a"))]),
        obj(vec![("role", s("assistant")), ("content", s("b"))]),
        obj(vec![("role", s("user")), ("content", s("c"))]),
    ];
    let t = timeline_from_messages(&messages);
    assert_eq!(t.len(), 2);
    match &t[1] {
        Json::Object(ms) => {
            assert_eq!(ms[0].0, "type");
            assert!(matches!(&ms[0].1, Json::Str(x) if x == "message"));
            assert_eq!(ms[1].0, "message");
            assert!(matches!(&ms[1].1, Json::Object(m) if matches!(&m[1].1, Json::Str(c) if c == "c")));
        },
        other => panic!("{other:?}"),
    }
    let entries = obj(vec![("entries", Json::Array(vec![Json::Null]))]);
    assert_eq!(snapshot_entries(Ok(entries), &messages).len(), 1);
    let missing = RpcError::Failed { message: "unknown command".to_string() };
    assert_eq!(snapshot_entries(Err(missing), &messages).len(), 2);
}

#[test]
fn state_replies_and_events_update_the_runtime() {
    let mut st = RuntimeState::new(None);
    assert_eq!(st.title, "新对话");
    assert_eq!(st.session_file, None);
    assert!(!st.streaming);
    st.apply_state(&obj(vec![
        ("sessionFile", s("/s/x.jsonl")),
        ("sessionName", s("Named")),
        ("isStreaming", Json::Bool(true)),
    ]));
    assert_eq!(st.session_file.as_deref(), Some("/s/x.jsonl"));
    assert_eq!(st.title, "Named");
    assert!(st.streaming);
    st.apply_state(&obj(vec![("sessionName", Json::Null)]));
    assert_eq!(st.title, "Named");
    st.observe_event(&obj(vec![("type", s("agent_settled"))]));
    assert!(!st.streaming);
    st.observe_event(&obj(vec![("type", s("agent_start"))]));
    assert!(st.streaming);
    st.observe_event(&obj(vec![("type", s("message_update"))]));
    assert!(st.streaming);
    let resumed = RuntimeState::new(Some("/s/y.jsonl"));
    assert_eq!(resumed.session_file.as_deref(), Some("/s/y.jsonl"));
}

#[test]
fn records_lose_their_line_ending() {
    let mut v = b"{}\r\n".to_vec();
    strip_record_end(&mut v);
    assert_eq!(v, b"{}");
    let mut v = b"{}\n\n".to_vec();
    strip_record_end(&mut v);
    assert_eq!(v, b"{}\n");
    let mut v = b"{}\r".to_vec();
    strip_record_end(&mut v);
    assert_eq!(v, b"{}");
    let mut v: Vec<u8> = Vec::new();
    strip_record_end(&mut v);
    assert!(v.is_empty());
}

#[test]
fn replies_are_told_from_events() {
    assert_eq!(response_id(&obj(vec![("type", s("response")), ("id", s("7"))])), Some("7".to_string()));
    assert_eq!(response_id(&obj(vec![("type", s("response"))])), None);
    assert_eq!(response_id(&obj(vec![("type", s("agent_start")), ("id", s("7"))])), None);
    match rpc_event("r1", Json::Int(5)) {
        ServerMessage::RpcEvent { runtime_id, event } => {
            assert_eq!(runtime_id, "r1");
            assert!(matches!(event, Json::Int(5)));
        },
        other => panic!("{other:?}"),
    }
    match stopped_notice("r1") {
        ServerMessage::Error { message } => assert_eq!(message, "Session r1 stopped"),
        other => panic!("{other:?}"),
    }
}

#[test]
fn launch_arguments_and_session_directory() {
    assert_eq!(launch_args(None), vec!["--mode", "rpc"]);
    assert_eq!(launch_args(Some("/s/a.jsonl")), vec!["--mode", "rpc", "--session", "/s/a.jsonl"]);
    assert_eq!(first_line("{\"cwd\":\"/w\"}\r\nrest"), Some("{\"cwd\":\"/w\"}".to_string()));
    assert_eq!(first_line("only"), Some("only".to_string()));
    assert_eq!(first_line("cr\r"), Some("cr\r".to_string()));
    assert_eq!(first_line("\nnext"), Some(String::new()));
    assert_eq!(first_line(""), None);
    assert_eq!(session_cwd(&obj(vec![("cwd", s("/w"))])), Some("/w".to_string()));
    assert_eq!(session_cwd(&obj(vec![("cwd", Json::Int(1))])), None);
}

#[test]
fn pending_requests_by_id() {
    let mut p: Pending<u32> = Pending::new();
    assert_eq!(p.len(), 0);
    p.insert("a".to_string(), 1);
    p.insert("b".to_string(), 2);
    p.insert("a".to_string(), 3);
    assert_eq!(p.len(), 2);
    assert_eq!(p.take("a"), Some(3));
    assert_eq!(p.take("a"), None);
    assert_eq!(p.take("zzz"), None);
    assert_eq!(p.len(), 1);
    // a request whose write failed is withdrawn
    p.insert("c".to_string(), 9);
    assert_eq!(p.take("c"), Some(9));
    assert_eq!(p.len(), 1);
    assert_eq!(p.take("b"), Some(2));
}

#[test]
fn records_are_routed_to_waiters_or_the_browser() {
    let mut p: Pending<&str> = Pending::new();
    p.insert("r1".to_string(), "waiter");
    let mut line = b"{\"type\":\"response\",\"id\":\"r1\",\"success\":true}\r\n".to_vec();
    match route_record(&mut p, &mut line) {
        Routed::Reply { waiter, record } => {
            assert_eq!(waiter, "waiter");
            assert_eq!(record.str_field("id").map(String::as_str), Some("r1"));
        }
        _ => panic!("reply not routed"),
    }
    assert_eq!(line, b"{\"type\":\"response\",\"id\":\"r1\",\"success\":true}".to_vec());
    assert_eq!(p.len(), 0);
    // a reply nobody waits for (any more) is an event
    let mut line = b"{\"type\":\"response\",\"id\":\"r1\"}\n".to_vec();
    assert!(matches!(route_record(&mut p, &mut line), Routed::Event { .. }));
    let mut line = b"{\"type\":\"agent_start\"}\n".to_vec();
    match route_record(&mut p, &mut line) {
        Routed::Event { record } => assert!(record.has_type("agent_start")),
        _ => panic!("event not routed"),
    }
    let mut line = b"not json\n".to_vec();
    assert!(matches!(route_record(&mut p, &mut line), Routed::Malformed));
}

#[test]
fn working_directory_from_the_first_line_of_a_session_file() {
    let content = "{\"type\":\"session\",\"cwd\":\"/proj\"}\r\n{\"type\":\"message\"}\n";
    assert_eq!(session_cwd_of(content), Some("/proj".to_string()));
    assert_eq!(session_cwd_of("{\"type\":\"session\"}"), None);
    assert_eq!(session_cwd_of("nope\n{\"cwd\":\"/x\"}"), None);
    assert_eq!(session_cwd_of(""), None);
}

#[test]
fn requests_wait_twenty_five_seconds() {
    assert_eq!(REQUEST_TIMEOUT_SECS, 25);
}
