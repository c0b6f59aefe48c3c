use dsh_gate::proxy::{is_websocket_upgrade, relay_continues, FrameKind, ProxyFailure, ProxyState};
use dsh_gate::AppState;
use dsh_gate::auth::AuthState;

#[test]
fn proxy_rewrites_to_loopback() {
    let p = ProxyState::try_new("http://host.docker.internal:3080").unwrap();
    assert_eq!(p.backend_origin, "http://host.docker.internal:3080");
    assert_eq!(p.backend_authority, "host.docker.internal:3080");
    assert_eq!(p.rewrite_host, "127.0.0.1:3080");
    assert_eq!(p.rewrite_origin, "http://127.0.0.1:3080");
    let q = ProxyState::new("http://10.0.0.5:9000/");
    assert_eq!(q.rewrite_host, "127.0.0.1:9000");
}

#[test]
fn proxy_without_port_uses_default_port() {
    let p = ProxyState::new("http://example.com");
    assert_eq!(p.rewrite_host, "127.0.0.1:3080");
    assert_eq!(p.rewrite_origin, "http://127.0.0.1:3080");
    let q = ProxyState::new("http://user:pw@example.com");
    assert_eq!(q.rewrite_host, "127.0.0.1:3080");
    let r = ProxyState::new("http://[::1]:8081");
    assert_eq!(r.rewrite_host, "127.0.0.1:8081");
    let v6 = ProxyState::new("http://[::1]");
    assert_eq!(v6.rewrite_host, "127.0.0.1:3080");
}

#[test]
fn proxy_rejects_backend_without_authority() {
    assert!(ProxyState::try_new("/just/a/path").is_none());
    assert!(ProxyState::try_new("not a uri").is_none());
}

#[test]
fn plan_keeps_path_and_rewrites_headers() {
    let p = ProxyState::new("http://127.0.0.1:3080");
    let r = p.plan_request(Some("/api/x?y=1"), true).unwrap();
    assert_eq!(r.target, "http://127.0.0.1:3080/api/x?y=1");
    assert_eq!(r.host, "127.0.0.1:3080");
    assert_eq!(r.origin.as_deref(), Some("http://127.0.0.1:3080"));
    let r = p.plan_request(None, false).unwrap();
    assert_eq!(r.target, "http://127.0.0.1:3080/");
    assert_eq!(r.origin, None);
}

#[test]
fn plan_rejects_unparsable_target() {
    let p = ProxyState::new("http://127.0.0.1:3080");
    assert_eq!(p.plan_request(Some("/a b"), false).err(), Some(ProxyFailure::BadTarget));
}

#[test]
fn ws_target_dials_backend() {
    let p = ProxyState::new("http://host.docker.internal:3080");
    assert_eq!(p.ws_target(Some("/ws?a=b")), "ws://host.docker.internal:3080/ws?a=b");
    assert_eq!(p.ws_target(None), "ws://host.docker.internal:3080/");
    assert_eq!(p.rewrite_host, "127.0.0.1:3080");
}

#[test]
fn websocket_upgrade_detection() {
    assert!(is_websocket_upgrade(Some("websocket")));
    assert!(is_websocket_upgrade(Some("WebSocket")));
    assert!(!is_websocket_upgrade(Some("h2c")));
    assert!(!is_websocket_upgrade(Some("")));
    assert!(!is_websocket_upgrade(None));
}

#[test]
fn failure_replies() {
    assert_eq!(ProxyFailure::BadTarget.status(), 400);
    assert_eq!(ProxyFailure::RequestTimeout.status(), 504);
    assert_eq!(ProxyFailure::Unavailable.status(), 502);
    assert_eq!(ProxyFailure::BodyError.status(), 502);
    assert_eq!(ProxyFailure::BodyTimeout.status(), 504);
    assert_eq!(ProxyFailure::Unavailable.body("refused").as_deref(), Some("upstream unavailable: refused"));
    assert_eq!(ProxyFailure::BodyError.body("eof").as_deref(), Some("upstream body error: eof"));
    assert_eq!(ProxyFailure::BodyTimeout.body("x"), None);
    assert_eq!(ProxyFailure::BadTarget.body("x"), None);
}

#[test]
fn relay_stops_on_close_or_failed_send() {
    assert!(relay_continues(&FrameKind::Text, true));
    assert!(relay_continues(&FrameKind::Ping, true));
    assert!(!relay_continues(&FrameKind::Close, true));
    assert!(!relay_continues(&FrameKind::Binary, false));
}

#[test]
fn app_state_holds_both() {
    let s = AppState {
        auth: AuthState::from_hash("u".to_string(), "h".to_string()),
        proxy: ProxyState::new("http://127.0.0.1:3080"),
    };
    assert_eq!(s.auth.username, "u");
    assert_eq!(s.proxy.rewrite_host, "127.0.0.1:3080");
}
