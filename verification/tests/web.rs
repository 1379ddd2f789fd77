use pi_mobile_ui::config::{join_path, sessions_dir, Config, ConfigError};
use pi_mobile_ui::json::Json;
use pi_mobile_ui::protocol::{ClientMessage, PromptBehavior, ServerMessage};
use pi_mobile_ui::text::decimal;
use pi_mobile_ui::web::{
    asset_headers, asset_path, cache_control, command_request, content_type, error_message,
    greeting, health, hello, replies, same_origin, socket_step, Replies, SocketAction, SocketEvent,
    HEARTBEAT_SECS, PROTOCOL_VERSION,
};

fn config(cwd: Option<&str>, agent: Option<&str>) -> Config {
    Config {
        host: "127.0.0.1".to_string(),
        port: 3003,
        cwd: cwd.map(str::to_string),
        pi_binary: "pi".to_string(),
        agent_dir: agent.map(str::to_string),
        max_sessions: 8,
    }
}

#[test]
fn origin_must_match_host() {
    assert!(same_origin(None, None));
    assert!(same_origin(None, Some("x")));
    assert!(!same_origin(Some("https://a.example"), None));
    assert!(same_origin(Some("https://a.example"), Some("a.example")));
    assert!(same_origin(Some("http://127.0.0.1:3003"), Some("127.0.0.1:3003")));
    assert!(same_origin(Some("https://a.example/path"), Some("a.example")));
    assert!(!same_origin(Some("https://evil.example"), Some("a.example")));
    assert!(!same_origin(Some("ftp://a.example"), Some("a.example")));
    assert!(!same_origin(Some("a.example"), Some("a.example")));
}

#[test]
fn commands_become_pi_requests() {
    let m = ClientMessage::SetModel {
        runtime_id: "r".to_string(),
        provider: "p".to_string(),
        model_id: "m".to_string(),
    };
    let (id, kind, params) = command_request(&m).unwrap();
    assert_eq!((id.as_str(), kind.as_str()), ("r", "set_model"));
    match params {
        Json::Object(ms) => {
            assert_eq!(ms.len(), 2);
            assert_eq!(ms[0].0, "provider");
            assert_eq!(ms[1].0, "modelId");
            assert!(matches!(&ms[1].1, Json::Str(v) if v == "m"));
        },
        other => panic!("{other:?}"),
    }
    let (_, kind, params) = command_request(&ClientMessage::Compact { runtime_id: "r".to_string() }).unwrap();
    assert_eq!(kind, "compact");
    assert!(matches!(params, Json::Object(ms) if ms.is_empty()));
    let t = ClientMessage::SetThinkingLevel { runtime_id: "r".to_string(), level: "high".to_string() };
    let (_, kind, params) = command_request(&t).unwrap();
    assert_eq!(kind, "set_thinking_level");
    assert!(matches!(params, Json::Object(ms) if ms.len() == 1 && ms[0].0 == "level"));
    let p = ClientMessage::Prompt {
        runtime_id: "r".to_string(),
        message: "x".to_string(),
        behavior: PromptBehavior::Normal,
    };
    assert!(command_request(&p).is_none());
    assert!(command_request(&ClientMessage::ListSessions).is_none());
}

#[test]
fn assets_and_their_headers() {
    assert_eq!(asset_path("/"), "index.html");
    assert_eq!(asset_path(""), "index.html");
    assert_eq!(asset_path("//app.js"), "app.js");
    assert_eq!(asset_path("/css/site.css"), "css/site.css");
    assert_eq!(cache_control("index.html"), "no-cache");
    assert_eq!(cache_control("app.js"), "public, max-age=3600");
    assert_eq!(content_type("index.html"), "text/html");
    assert_eq!(content_type("css/site.css"), "text/css");
    assert_eq!(content_type("favicon.svg"), "image/svg+xml");
    assert_eq!(content_type("sessions"), "application/octet-stream");
    assert_eq!(content_type("x.unknownext"), "application/octet-stream");
    let h = asset_headers("index.html");
    let names: Vec<&str> = h.iter().map(|(n, _)| n.as_str()).collect();
    assert_eq!(
        names,
        vec![
            "content-type",
            "cache-control",
            "x-content-type-options",
            "referrer-policy",
            "x-frame-options",
            "content-security-policy"
        ]
    );
    assert_eq!(h[0].1, "text/html");
    assert_eq!(h[1].1, "no-cache");
    assert_eq!(h[4].1, "DENY");
    assert!(h[5].1.starts_with("default-src 'self'"));
}

#[test]
fn fixed_messages() {
    match health() {
        Json::Object(ms) => {
            assert_eq!(ms.len(), 3);
            assert!(matches!(&ms[0], (k, Json::Bool(true)) if k == "ok"));
            assert!(matches!(&ms[1], (k, Json::Str(v)) if k == "service" && v == "pi-mobile-ui"));
            assert!(matches!(&ms[2], (k, Json::Int(1)) if k == "protocol"));
        },
        other => panic!("{other:?}"),
    }
    assert!(matches!(hello(), ServerMessage::Hello { protocol: 1 }));
    assert!(matches!(error_message("boom"), ServerMessage::Error { message } if message == "boom"));
}

#[test]
fn configuration_fills_in_directories() {
    let c = match config(None, None).resolve_with(Some("/here".to_string()), Some("/home/u".to_string())) {
        Ok(c) => c,
        Err(e) => panic!("{}", e.message()),
    };
    assert_eq!(c.cwd(), "/here");
    assert_eq!(c.agent_dir(), "/home/u/.pi/agent");
    let c = config(Some("/w"), Some("/a")).resolve_with(None, None).ok().unwrap();
    assert_eq!(c.cwd(), "/w");
    assert_eq!(c.agent_dir(), "/a");
    assert!(matches!(config(None, Some("/a")).resolve_with(None, None), Err(ConfigError::NoCurrentDir)));
    assert!(matches!(config(Some("/w"), None).resolve_with(None, None), Err(ConfigError::NoHomeDir)));
    assert_eq!(ConfigError::NoCurrentDir.message(), "cannot resolve current directory");
    assert_eq!(ConfigError::NoHomeDir.message(), "cannot resolve home directory");
    let c = config(Some("/w"), Some("/a")).resolve(None).ok().unwrap();
    assert_eq!(c.agent_dir(), "/a");
}

#[test]
fn paths_join_like_path_join() {
    assert_eq!(join_path("/home/u", ".pi/agent"), "/home/u/.pi/agent");
    assert_eq!(join_path("/home/u/", ".pi/agent"), "/home/u/.pi/agent");
    assert_eq!(join_path("", "x"), "x");
    assert_eq!(sessions_dir("/a"), "/a/sessions");
}

#[test]
fn numbers_in_decimal() {
    assert_eq!(decimal(0), "0");
    assert_eq!(decimal(8), "8");
    assert_eq!(decimal(1024), "1024");
    assert_eq!(decimal(u64::MAX), u64::MAX.to_string());
}

#[test]
fn replies_follow_the_message() {
    let r = replies(&ClientMessage::ListSessions);
    assert_eq!(r, Replies { opened: false, sessions: true });
    let r = replies(&ClientMessage::CreateSession);
    assert_eq!(r, Replies { opened: true, sessions: true });
    let r = replies(&ClientMessage::OpenSession { catalog_id: "c1".to_string() });
    assert_eq!(r, Replies { opened: true, sessions: true });
    let r = replies(&ClientMessage::ActivateSession { runtime_id: "r1".to_string() });
    assert_eq!(r, Replies { opened: true, sessions: false });
    let r = replies(&ClientMessage::Abort { runtime_id: "r1".to_string() });
    assert_eq!(r, Replies { opened: false, sessions: false });
    let r = replies(&ClientMessage::Prompt {
        runtime_id: "r1".to_string(),
        message: "hi".to_string(),
        behavior: PromptBehavior::Normal,
    });
    assert_eq!(r, Replies { opened: false, sessions: false });
}

#[test]
fn connection_events_and_what_follows() {
    assert!(matches!(socket_step(SocketEvent::Text("hi".to_string())), SocketAction::Handle(t) if t == "hi"));
    assert!(matches!(socket_step(SocketEvent::Ping(vec![1, 2])), SocketAction::Pong(p) if p == vec![1, 2]));
    assert!(matches!(socket_step(SocketEvent::Close), SocketAction::Stop));
    assert!(matches!(socket_step(SocketEvent::Failed), SocketAction::Stop));
    assert!(matches!(socket_step(SocketEvent::BusClosed), SocketAction::Stop));
    assert!(matches!(socket_step(SocketEvent::Lagged(3)), SocketAction::Ignore));
    assert!(matches!(socket_step(SocketEvent::Other), SocketAction::Ignore));
    assert!(matches!(socket_step(SocketEvent::Tick), SocketAction::Heartbeat));
    match socket_step(SocketEvent::Bus(error_message("boom"))) {
        SocketAction::Send(ServerMessage::Error { message }) => assert_eq!(message, "boom"),
        other => panic!("unexpected {other:?}"),
    }
    assert_eq!(HEARTBEAT_SECS, 25);
}

#[test]
fn a_new_connection_gets_the_version_then_the_sessions() {
    let r = greeting(Vec::new());
    assert_eq!(r.len(), 2);
    assert!(matches!(r[0], ServerMessage::Hello { protocol } if protocol == PROTOCOL_VERSION && protocol == 1));
    assert!(matches!(&r[1], ServerMessage::Sessions { sessions } if sessions.is_empty()));
}
