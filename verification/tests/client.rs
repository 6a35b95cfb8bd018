use lumen::client::{
    ensure, ensure_line, ensure_quickshell, feedback_url, session_url, sessions_url,
    failure_message, is_success, status_line, stop_answer, stop_target, AgentInfo, StopTarget,
};
use lumen::feedback::{audit_limit, audit_retention, new_feedback};

#[test]
fn ensure_registers_an_agent_session() {
    let request = ensure("http://127.0.0.1:8899", "alice", Some("ops-bot"));
    assert_eq!(request.url, "http://127.0.0.1:8899/v1/sessions");
    assert_eq!(request.name, "alice");
    assert_eq!(request.kind, "browser");
    assert_eq!(request.path, None);
    assert_eq!(request.origin, "agent");
    assert_eq!(request.owner.as_deref(), Some("ops-bot"));
    let shell = ensure_quickshell("http://h", "bar", "/etc/q/shell.qml", None);
    assert_eq!(shell.kind, "quickshell");
    assert_eq!(shell.path.as_deref(), Some("/etc/q/shell.qml"));
    assert_eq!(shell.owner, None);
}

#[test]
fn client_endpoints() {
    assert_eq!(sessions_url("http://h"), "http://h/v1/sessions");
    assert_eq!(session_url("http://h", "a"), "http://h/v1/sessions/a");
    assert_eq!(feedback_url("http://h", "a", true), "http://h/v1/sessions/a/feedback/consume");
    assert_eq!(feedback_url("http://h", "a", false), "http://h/v1/sessions/a/feedback?pending=true");
}

#[test]
fn sessions_print_where_they_live() {
    let browser = AgentInfo {
        name: "alice".into(),
        kind: "browser".into(),
        cdp_endpoint: "http://127.0.0.1:9222".into(),
        path: None,
    };
    assert_eq!(ensure_line(&browser), "http://127.0.0.1:9222");
    assert_eq!(status_line(&browser), format!("{:<24} {}", "alice", "http://127.0.0.1:9222"));
    let shell = AgentInfo {
        name: "a-very-long-session-name-over-24".into(),
        kind: "quickshell".into(),
        cdp_endpoint: String::new(),
        path: None,
    };
    assert_eq!(ensure_line(&shell), "quickshell (unknown path)");
    assert_eq!(
        status_line(&shell),
        format!("{:<24} quickshell {}", "a-very-long-session-name-over-24", "(unknown path)")
    );
}

#[test]
fn stop_needs_a_name_or_all() {
    assert!(matches!(stop_target(true, None), Ok(StopTarget::All)));
    assert!(matches!(stop_target(false, Some("a".into())), Ok(StopTarget::One(n)) if n == "a"));
    assert_eq!(
        stop_target(false, None).unwrap_err(),
        "stop needs a session name, or --all to stop every session"
    );
}

#[test]
fn feedback_bounds() {
    assert_eq!(audit_limit(0), 1);
    assert_eq!(audit_limit(5000), 1000);
    assert_eq!(audit_limit(42), 42);
    assert_eq!(audit_retention(-3), 1);
    assert_eq!(audit_retention(10_000), 10_000);
    let note = new_feedback(7, "s", 1700000000, "human", "fix", true);
    assert_eq!(note.status, "pending");
    assert!(note.screenshot);
    assert_eq!(note.comment, "fix");
}

#[test]
fn answers_are_accepted_only_with_a_success_status() {
    assert!(is_success(200) && is_success(204) && is_success(299));
    assert!(!is_success(199) && !is_success(300) && !is_success(404) && !is_success(500));
    assert_eq!(
        failure_message("409 Conflict", "{\"error\":\"dup\"}"),
        "lumen returned 409 Conflict: {\"error\":\"dup\"}"
    );
}

#[test]
fn stopping_a_missing_session_is_not_an_error() {
    assert_eq!(stop_answer(404, "alice").as_deref(), Some("session alice not running"));
    assert_eq!(stop_answer(204, "alice").as_deref(), Some("stopped alice"));
    assert_eq!(stop_answer(500, "alice"), None);
}
