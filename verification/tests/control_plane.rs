use base64::Engine as _;
use lumen::accessibility::{Bounds, Node, Tree, TreeStats};
use lumen::desktop::MouseAction;
use lumen::http::{
    about_blank, check_comment, check_create_request, check_screenshot, check_viewport,
    click_target, control_path, decode_frame, decode_screenshot, default_audit_limit, plan_command,
    plausible_font, request_provenance, session_not_found_error, terminal_button, tree_answer,
    ApiError, BrowserButton, CommandPlan, ViewCommand,
};
use lumen::protocol::{KeyCode, MouseButton, MouseKind};
use lumen::supervisor::{Origin, RegistryFull, SessionConflict, SessionError, SessionKind, InvalidAgentName};
use lumen::view::{control_label, control_owner, Control};

const PNG: &[u8] = b"\x89PNG\r\n\x1a\nnot-really-a-png";

#[test]
fn errors_answer_with_their_status() {
    assert_eq!(ApiError::bad_request("x").status(), 400);
    assert_eq!(ApiError::forbidden("x").status(), 403);
    assert_eq!(ApiError::not_found("x").status(), 404);
    assert_eq!(ApiError::conflict("x").status(), 409);
    assert_eq!(ApiError::Internal("boom".into()).status(), 500);
    assert_eq!(ApiError::conflict("taken").message(), "taken");
}

#[test]
fn refused_session_requests_map_to_caller_or_service_errors() {
    let name = ApiError::from_session_error(&SessionError::InvalidName(InvalidAgentName("a b".into())));
    assert_eq!(name.status(), 400);
    assert_eq!(name.message(), "invalid agent name 'a b' (use [A-Za-z0-9._-], 1-32 chars)");
    let conflict = ApiError::from_session_error(&SessionError::Conflict(SessionConflict("dup".into())));
    assert_eq!(conflict.status(), 409);
    let full = ApiError::from_session_error(&SessionError::Full(RegistryFull(8)));
    assert_eq!(full.status(), 500);
    assert_eq!(full.message(), "max agents (8) reached");
}

#[test]
fn create_requests_need_a_safe_name_and_the_right_path() {
    assert!(check_create_request("alice", SessionKind::Browser, false).is_ok());
    assert!(check_create_request("alice", SessionKind::Terminal, true).is_ok());
    let cases = [
        ("bad name", SessionKind::Browser, false, "invalid agent name (use [A-Za-z0-9._-], 1-32 chars)"),
        ("a", SessionKind::Browser, true, "browser sessions do not accept a path"),
        ("a", SessionKind::Quickshell, false, "Quickshell sessions require a path to shell.qml"),
        ("a", SessionKind::Ratatui, false, "Ratatui sessions require a path to the app binary"),
        ("a", SessionKind::Terminal, false, "Terminal sessions require a command to run"),
        ("a", SessionKind::Qt, false, "Qt sessions require a command to run"),
    ];
    for (name, kind, has_path, message) in cases {
        let err = check_create_request(name, kind, has_path).unwrap_err();
        assert_eq!(err.status(), 400);
        assert_eq!(err.message(), message);
    }
}

#[test]
fn provenance_defaults_to_a_human_and_drops_blank_owners() {
    assert_eq!(request_provenance(None, None), (Origin::Manual, None));
    assert_eq!(request_provenance(Some(Origin::Agent), Some("  ".into())), (Origin::Agent, None));
    assert_eq!(
        request_provenance(Some(Origin::Agent), Some(" ops-bot ".into())),
        (Origin::Agent, Some(" ops-bot ".to_string()))
    );
    assert_eq!(session_not_found_error("x").message(), "session 'x' not found");
}

#[test]
fn screenshots_must_be_bounded_base64_pngs() {
    let encoded = base64::engine::general_purpose::STANDARD.encode(PNG);
    assert_eq!(decode_screenshot(&format!("  {encoded}\n")).unwrap(), PNG.to_vec());
    assert_eq!(
        decode_screenshot("!!!").unwrap_err().message(),
        "screenshot must be base64-encoded"
    );
    let jpeg = base64::engine::general_purpose::STANDARD.encode(b"\xff\xd8\xff\xe0");
    assert_eq!(decode_screenshot(&jpeg).unwrap_err().message(), "screenshot must be a PNG");
    let mut big = PNG.to_vec();
    big.resize(4 * 1024 * 1024 + 1, 0);
    assert_eq!(
        check_screenshot(Some(big)).unwrap_err().message(),
        "screenshot exceeds 4194304 bytes"
    );
    let mut exact = PNG.to_vec();
    exact.resize(4 * 1024 * 1024, 0);
    assert!(check_screenshot(Some(exact)).is_ok());
    assert!(check_screenshot(None).is_err());
}

#[test]
fn comments_are_trimmed_and_must_not_be_blank() {
    assert_eq!(check_comment("  fix this \n").unwrap(), "fix this");
    assert_eq!(check_comment(" \t ").unwrap_err().message(), "comment must not be empty");
}

#[test]
fn small_request_checks() {
    assert!(check_viewport(1, 1).is_ok());
    assert_eq!(check_viewport(0, 10).unwrap_err().message(), "width and height must be positive");
    assert_eq!(about_blank(), "about:blank");
    assert_eq!(default_audit_limit(), 100);
    assert!(control_path("/v1/sessions"));
    assert!(!control_path("/healthz"));
    assert!(!control_path("/v1"));
    assert!(plausible_font("inter-regular.woff2"));
    assert!(!plausible_font("../secret.woff2"));
    assert!(!plausible_font("font.ttf"));
}

#[test]
fn viewer_buttons_map_onto_terminal_buttons() {
    assert_eq!(terminal_button(Some("right")), MouseButton::Right);
    assert_eq!(terminal_button(Some("middle")), MouseButton::Middle);
    assert_eq!(terminal_button(Some("left")), MouseButton::Left);
    assert_eq!(terminal_button(None), MouseButton::Left);
    assert_eq!(terminal_button(Some("back")), MouseButton::NoButton);
}

fn tree_with(node: Node) -> Tree {
    Tree {
        root: node,
        stats: TreeStats { applications: 1, nodes: 1, named: 1, max_depth: 1 },
    }
}

fn node(reference: &str, bounds: Option<Bounds>) -> Node {
    Node {
        reference: reference.into(),
        role: "push button".into(),
        name: String::new(),
        description: String::new(),
        states: Vec::new(),
        bounds,
        children: Vec::new(),
    }
}

#[test]
fn clicks_need_an_element_with_bounds() {
    let mut root = node("root", None);
    root.children.push(node("b", Some(Bounds { x: 100, y: 50, width: 80, height: 24 })));
    let tree = tree_with(root);
    assert_eq!(click_target(&tree, "b").unwrap(), Bounds { x: 100, y: 50, width: 80, height: 24 });
    let missing = click_target(&tree, "zz").unwrap_err();
    assert_eq!(missing.status(), 404);
    assert_eq!(missing.message(), "element 'zz' is not in the current accessibility tree");
    let flat = click_target(&tree, "root").unwrap_err();
    assert_eq!(flat.status(), 409);
    assert_eq!(flat.message(), "element 'root' has no on-screen bounds");
}

#[test]
fn trees_are_refused_without_an_application_and_flagged_without_names() {
    let none = tree_answer(&TreeStats { applications: 0, nodes: 0, named: 0, max_depth: 0 }).unwrap_err();
    assert_eq!(none.status(), 409);
    assert_eq!(
        tree_answer(&TreeStats { applications: 1, nodes: 12, named: 0, max_depth: 3 }).unwrap(),
        Some("no accessible object inside the application's windows publishes a name (12 objects)".to_string())
    );
    assert_eq!(tree_answer(&TreeStats { applications: 1, nodes: 5, named: 2, max_depth: 3 }).unwrap(), None);
}

#[test]
fn control_actions_always_apply() {
    let claim = ViewCommand::Control { action: "claim".into() };
    assert!(matches!(plan_command(Control::Agent, SessionKind::Browser, &claim), CommandPlan::SetControl(Control::Human)));
    let release = ViewCommand::Control { action: "release".into() };
    assert!(matches!(plan_command(Control::Human, SessionKind::Qt, &release), CommandPlan::SetControl(Control::Agent)));
    match plan_command(Control::Human, SessionKind::Qt, &ViewCommand::Control { action: "steal".into() }) {
        CommandPlan::Error(m) => assert_eq!(m, "unknown control action"),
        other => panic!("unexpected {other:?}"),
    }
    assert_eq!(control_owner("claim"), Some(Control::Human));
    assert_eq!(control_owner("nope"), None);
    assert_eq!(control_label(Control::Human), "human");
}

#[test]
fn input_is_ignored_while_the_agent_holds_control() {
    let commands = [
        ViewCommand::Mouse { action: "bogus".into(), button: None },
        ViewCommand::Wheel { up: true },
        ViewCommand::Text { text: "hi".into() },
        ViewCommand::Key { code: KeyCode::Enter, mods: 0 },
    ];
    for command in &commands {
        for kind in [SessionKind::Browser, SessionKind::Qt, SessionKind::Terminal] {
            assert!(matches!(plan_command(Control::Agent, kind, command), CommandPlan::Ignore));
        }
    }
}

#[test]
fn human_input_reaches_each_surface_its_own_way() {
    let down_right = ViewCommand::Mouse { action: "down".into(), button: Some("right".into()) };
    assert!(matches!(
        plan_command(Control::Human, SessionKind::Browser, &down_right),
        CommandPlan::BrowserMouse(MouseAction::Down, BrowserButton::Right)
    ));
    match plan_command(Control::Human, SessionKind::Quickshell, &ViewCommand::Mouse { action: "move".into(), button: None }) {
        CommandPlan::DesktopMouse(MouseAction::Move, b) => assert_eq!(b, "left"),
        other => panic!("unexpected {other:?}"),
    }
    assert!(matches!(
        plan_command(Control::Human, SessionKind::Ratatui, &ViewCommand::Mouse { action: "up".into(), button: Some("x".into()) }),
        CommandPlan::TerminalMouse(MouseKind::Up, MouseButton::NoButton)
    ));
    match plan_command(Control::Human, SessionKind::Terminal, &ViewCommand::Mouse { action: "drag".into(), button: None }) {
        CommandPlan::Error(m) => assert_eq!(m, "unknown mouse action 'drag'"),
        other => panic!("unexpected {other:?}"),
    }
    assert!(matches!(
        plan_command(Control::Human, SessionKind::Terminal, &ViewCommand::Wheel { up: false }),
        CommandPlan::TerminalWheel(MouseKind::ScrollDown)
    ));
    assert!(matches!(
        plan_command(Control::Human, SessionKind::Browser, &ViewCommand::Wheel { up: false }),
        CommandPlan::BrowserWheel
    ));
    assert!(matches!(
        plan_command(Control::Human, SessionKind::Qt, &ViewCommand::Text { text: "x".into() }),
        CommandPlan::DesktopText
    ));
    assert!(matches!(
        plan_command(Control::Human, SessionKind::Terminal, &ViewCommand::Key { code: KeyCode::Up, mods: 2 }),
        CommandPlan::TerminalKey(KeyCode::Up, 2)
    ));
    match plan_command(Control::Human, SessionKind::Browser, &ViewCommand::Key { code: KeyCode::Up, mods: 0 }) {
        CommandPlan::Error(m) => assert_eq!(m, "key input is only available for terminal sessions"),
        other => panic!("unexpected {other:?}"),
    }
}

#[test]
fn frames_decode_from_standard_base64() {
    let jpeg = vec![0xffu8, 0xd8, 0xff, 0xe0, 0x00, 0x10];
    let encoded = base64::engine::general_purpose::STANDARD.encode(&jpeg);
    assert_eq!(decode_frame(&encoded), Some(jpeg));
    assert_eq!(decode_frame("not base64!"), None);
    assert_eq!(decode_frame(""), Some(Vec::new()));
}
