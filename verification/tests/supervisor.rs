use lumen::config::Viewport;
use lumen::supervisor::{
    agent_info, chrome_args, command_program, is_valid_agent_name, launch_plan,
    looks_like_profile_dir, parse_devtools_port, profile_dir_name, profile_root,
    foreign_entries, resolve_request, stale_profiles, validate_qt_command, validate_quickshell_path,
    validate_ratatui_path, validate_terminal_command, EnsurePlan, FileFacts, LaunchPlan, Origin,
    Registry, RegistryFull, RootEntry, SessionError, SessionKind, SessionMeta,
};

fn executable() -> Result<FileFacts, String> {
    Ok(FileFacts { is_file: true, is_dir: false, mode: 0o755 })
}

fn directory() -> Result<FileFacts, String> {
    Ok(FileFacts { is_file: false, is_dir: true, mode: 0o1777 })
}

fn missing() -> Result<FileFacts, String> {
    Err("No such file or directory (os error 2)".to_string())
}

#[test]
fn parses_the_devtools_port() {
    let line =
        "[123:456:INFO:CONSOLE] DevTools listening on ws://127.0.0.1:45123/devtools/browser/x";
    assert_eq!(parse_devtools_port(line), Some(45123));
    assert_eq!(parse_devtools_port("nothing here"), None);
}

#[test]
fn a_port_that_does_not_fit_is_not_reported() {
    assert_eq!(parse_devtools_port("DevTools listening on ws://127.0.0.1:70000/x"), None);
    assert_eq!(parse_devtools_port("DevTools listening on ws://127.0.0.1:/x"), None);
    assert_eq!(parse_devtools_port("DevTools listening on ws://127.0.0.1:0009222"), Some(9222));
}

#[test]
fn rejects_unsafe_names() {
    assert!(is_valid_agent_name("alice"));
    assert!(is_valid_agent_name("agent.1_x-y"));
    assert!(!is_valid_agent_name(""));
    assert!(!is_valid_agent_name("has space"));
    assert!(!is_valid_agent_name("slash/name"));
    assert!(!is_valid_agent_name("."));
    assert!(!is_valid_agent_name(".."));
    assert!(!is_valid_agent_name(&"a".repeat(33)));
    assert!(is_valid_agent_name(&"a".repeat(32)));
    assert!(!is_valid_agent_name("é"));
}

#[test]
fn qt_command_requires_an_absolute_executable() {
    assert!(validate_qt_command(None, executable(), Ok("/bin/sh".into())).is_err());
    assert!(validate_qt_command(Some("relative/app".into()), executable(), Ok("/x".into())).is_err());
    assert!(validate_qt_command(Some("/nonexistent/app".into()), missing(), Ok("/x".into())).is_err());
    assert!(validate_qt_command(Some("/tmp".into()), directory(), Ok("/tmp".into())).is_err());
    assert!(validate_qt_command(Some("/bin/sh".into()), executable(), Ok("/usr/bin/dash".into())).is_ok());
}

#[test]
fn command_arguments_are_preserved_verbatim() {
    let resolved = validate_qt_command(
        Some("/bin/sh -c 'echo hi'".into()),
        executable(),
        Ok("/usr/bin/dash".into()),
    )
    .expect("absolute executable with arguments");
    assert!(
        resolved.contains(" -c 'echo hi'"),
        "arguments were rewritten: {resolved}"
    );
    assert_eq!(resolved, "/usr/bin/dash -c 'echo hi'");
}

#[test]
fn command_refusals_explain_themselves() {
    let none = validate_terminal_command(None, executable(), Ok("/x".into())).unwrap_err();
    assert_eq!(none.message(), "Terminal sessions require a command to run");
    let empty = validate_terminal_command(Some("  ".into()), executable(), Ok("/x".into())).unwrap_err();
    assert_eq!(empty.message(), "invalid command \"  \": empty command");
    let relative = validate_qt_command(Some("app --x".into()), executable(), Ok("/x".into())).unwrap_err();
    assert_eq!(relative.message(), "program \"app\" must be an absolute path");
    let plain = validate_qt_command(
        Some("/srv/app".into()),
        Ok(FileFacts { is_file: true, is_dir: false, mode: 0o644 }),
        Ok("/srv/app".into()),
    )
    .unwrap_err();
    assert_eq!(plain.message(), "program /srv/app is not an executable file");
    let unresolved = validate_qt_command(Some("/srv/app".into()), executable(), Err("loop".into())).unwrap_err();
    assert_eq!(unresolved.message(), "resolving program /srv/app: loop");
    let quoted = validate_qt_command(Some("'/srv/app' -v".into()), executable(), Ok("/srv/real".into())).unwrap();
    assert_eq!(quoted, "/srv/real");
    assert_eq!(command_program("'/srv/app' -v"), Some("/srv/app".to_string()));
    assert_eq!(command_program(""), None);
}

#[test]
fn quickshell_and_ratatui_paths_are_checked() {
    assert!(validate_quickshell_path(Some("/etc/shell".into()), directory(), Ok("/etc/shell".into())).is_ok());
    let relative = validate_quickshell_path(Some("shell.qml".into()), directory(), Ok("/x".into())).unwrap_err();
    assert_eq!(relative.message(), "Quickshell path must be absolute");
    let unreadable = validate_quickshell_path(Some("/q".into()), missing(), Ok("/q".into())).unwrap_err();
    assert_eq!(unreadable.message(), "reading Quickshell path /q: No such file or directory (os error 2)");
    assert_eq!(
        validate_ratatui_path(Some("/bin/app".into()), executable(), Ok("/opt/app".into())).unwrap(),
        "/opt/app"
    );
    let dir = validate_ratatui_path(Some("/bin".into()), directory(), Ok("/bin".into())).unwrap_err();
    assert_eq!(dir.message(), "Ratatui path must be an executable file");
    let plain = validate_ratatui_path(
        Some("/bin/app".into()),
        Ok(FileFacts { is_file: true, is_dir: false, mode: 0o600 }),
        Ok("/bin/app".into()),
    )
    .unwrap_err();
    assert_eq!(plain.message(), "Ratatui path /bin/app is not executable");
}

#[test]
fn requests_resolve_to_the_path_their_kind_runs() {
    assert_eq!(resolve_request("alice", SessionKind::Browser, None, missing(), Err(String::new())).unwrap(), None);
    match resolve_request("alice", SessionKind::Browser, Some("/x".into()), missing(), Err(String::new())) {
        Err(SessionError::Conflict(c)) => assert_eq!(c.0, "browser sessions do not accept a path"),
        other => panic!("unexpected {other:?}"),
    }
    match resolve_request("bad name", SessionKind::Browser, None, missing(), Err(String::new())) {
        Err(err @ SessionError::InvalidName(_)) => assert_eq!(
            err.message(),
            "invalid agent name 'bad name' (use [A-Za-z0-9._-], 1-32 chars)"
        ),
        other => panic!("unexpected {other:?}"),
    }
    assert_eq!(
        resolve_request("t", SessionKind::Terminal, Some("/bin/sh -l".into()), executable(), Ok("/usr/bin/dash".into())).unwrap(),
        Some("/usr/bin/dash -l".to_string())
    );
}

#[test]
fn sweeps_only_profiles_without_a_live_browser() {
    let root = "/data/agents/run";
    let entries = vec![
        RootEntry { path: format!("{root}/live"), is_dir: true },
        RootEntry { path: format!("{root}/stale"), is_dir: true },
        RootEntry { path: format!("{root}/.lumen-profile.lock"), is_dir: false },
    ];
    let live = vec![format!("{root}/live")];
    assert_eq!(stale_profiles(&entries, &live), vec![format!("{root}/stale")]);
}

#[test]
fn generated_profile_names_are_recognised() {
    let name = profile_dir_name("alice", 7, 2, 1789482902823221842);
    assert_eq!(name, "alice-7-2-1789482902823221842");
    assert!(looks_like_profile_dir(&name));
    assert!(looks_like_profile_dir(&profile_dir_name("my-agent", 0, 0, 0)));
    assert!(looks_like_profile_dir("alice-7-2-1789482902823221842"));
    assert!(!looks_like_profile_dir("systemd"));
    assert!(!looks_like_profile_dir("-1-2-3"));
    assert!(!looks_like_profile_dir("alice-1-2"));
    assert!(!looks_like_profile_dir("alice-1-x-3"));
    assert!(!looks_like_profile_dir("alice-1-2-"));
}

#[test]
fn the_profile_root_is_the_run_subdirectory() {
    assert_eq!(profile_root("/data/agents"), "/data/agents/run");
    assert_eq!(profile_root("/data/agents/"), "/data/agents/run");
}

#[test]
fn chromium_starts_headless_on_the_session_profile() {
    let args = chrome_args("/data/agents/run/a-1-2-3", Viewport { width: 1440, height: 900 });
    assert_eq!(args[0], "--remote-debugging-port=0");
    assert_eq!(args[1], "--user-data-dir=/data/agents/run/a-1-2-3");
    assert_eq!(args[2], "--window-size=1440,900");
    assert_eq!(args.last().unwrap(), "about:blank");
    assert_eq!(args.len(), 11);
}

#[test]
fn launch_plans_follow_the_session_kind() {
    let viewport = Viewport { width: 800, height: 600 };
    match launch_plan(SessionKind::Quickshell, Some("/etc/q".into()), "/p", viewport, "quickshell").unwrap() {
        LaunchPlan::Desktop { program, args, accessibility } => {
            assert_eq!(program, "quickshell");
            assert_eq!(args, vec!["--path", "/etc/q"]);
            assert!(!accessibility);
        }
        other => panic!("unexpected {other:?}"),
    }
    match launch_plan(SessionKind::Qt, Some("/opt/app --big".into()), "/p", viewport, "quickshell").unwrap() {
        LaunchPlan::Desktop { program, args, accessibility } => {
            assert_eq!(program, "/opt/app");
            assert_eq!(args, vec!["--big"]);
            assert!(accessibility);
        }
        other => panic!("unexpected {other:?}"),
    }
    match launch_plan(SessionKind::Terminal, Some("/bin/sh -c 'x y'".into()), "/p", viewport, "q").unwrap() {
        LaunchPlan::Terminal { program, args } => {
            assert_eq!(program, "/bin/sh");
            assert_eq!(args, vec!["-c", "x y"]);
        }
        other => panic!("unexpected {other:?}"),
    }
    assert!(launch_plan(SessionKind::Terminal, Some("''".into()), "/p", viewport, "q").is_err());
}

fn meta(origin: Origin, owner: Option<&str>, kind: SessionKind, path: Option<&str>) -> SessionMeta {
    SessionMeta {
        origin,
        owner: owner.map(str::to_string),
        kind,
        path: path.map(str::to_string),
    }
}

#[test]
fn the_registry_finds_what_it_holds_and_forgets_what_it_removes() {
    let mut registry: Registry<u32> = Registry::new();
    assert_eq!(registry.len(), 0);
    registry.insert("alice".into(), meta(Origin::Manual, None, SessionKind::Browser, None), 1);
    registry.insert("bob".into(), meta(Origin::Agent, Some("ops-bot"), SessionKind::Terminal, Some("/bin/sh")), 2);
    assert_eq!(registry.len(), 2);
    assert_eq!(registry.get("alice"), Some(&1));
    assert_eq!(registry.get("bob"), Some(&2));
    assert_eq!(registry.get("carol"), None);
    let mut names = registry.names();
    names.sort();
    assert_eq!(names, vec!["alice", "bob"]);
    assert_eq!(registry.remove("alice"), Some(1));
    assert_eq!(registry.remove("alice"), None);
    assert_eq!(registry.get("alice"), None);
    assert_eq!(registry.len(), 1);
    assert_eq!(registry.drain(), vec![2]);
    assert_eq!(registry.len(), 0);
}

#[test]
fn ensure_reuses_conflicts_fills_or_launches() {
    let mut registry: Registry<u32> = Registry::new();
    registry.insert("alice".into(), meta(Origin::Manual, None, SessionKind::Browser, None), 1);
    assert!(matches!(
        registry.plan_ensure("alice", SessionKind::Browser, &None, &None, 8),
        EnsurePlan::Reuse
    ));
    match registry.plan_ensure("alice", SessionKind::Terminal, &Some("/bin/sh".into()), &None, 8) {
        EnsurePlan::Conflict(c) => assert_eq!(c.message(), "session 'alice' already exists as Browser"),
        other => panic!("unexpected {other:?}"),
    }
    match registry.plan_ensure("bob", SessionKind::Browser, &None, &None, 1) {
        EnsurePlan::Full(full) => {
            assert_eq!(full, RegistryFull(1));
            assert_eq!(full.message(), "max agents (1) reached");
        }
        other => panic!("unexpected {other:?}"),
    }
    match registry.plan_ensure("bob", SessionKind::Browser, &None, &Some((Origin::Agent, Some("ops-bot".into()))), 8) {
        EnsurePlan::Launch(m) => {
            assert_eq!(m.origin, Origin::Agent);
            assert_eq!(m.owner.as_deref(), Some("ops-bot"));
            assert_eq!(m.kind, SessionKind::Browser);
        }
        other => panic!("unexpected {other:?}"),
    }
    match registry.plan_ensure("carol", SessionKind::Browser, &None, &None, 8) {
        EnsurePlan::Launch(m) => {
            assert_eq!(m.origin, Origin::Manual);
            assert_eq!(m.owner, None);
        }
        other => panic!("unexpected {other:?}"),
    }
}

#[test]
fn an_agent_claim_upgrades_provenance_and_nothing_downgrades_it() {
    let mut registry: Registry<u32> = Registry::new();
    registry.insert("alice".into(), meta(Origin::Manual, Some("old"), SessionKind::Browser, None), 1);
    registry.record_provenance("alice", Some((Origin::Agent, None)));
    let m = registry.meta("alice").unwrap();
    assert_eq!(m.origin, Origin::Agent);
    assert_eq!(m.owner.as_deref(), Some("old"));
    registry.record_provenance("alice", Some((Origin::Manual, Some("human".into()))));
    registry.record_provenance("alice", None);
    let m = registry.meta("alice").unwrap();
    assert_eq!(m.origin, Origin::Agent);
    assert_eq!(m.owner.as_deref(), Some("old"));
    registry.record_provenance("alice", Some((Origin::Agent, Some("ops-bot".into()))));
    let m = registry.meta("alice").unwrap();
    assert_eq!(m.owner.as_deref(), Some("ops-bot"));
    let info = agent_info("alice", m, "http://127.0.0.1:9222");
    assert_eq!(info.name, "alice");
    assert_eq!(info.cdp_endpoint, "http://127.0.0.1:9222");
    assert_eq!(info.origin, Origin::Agent);
    assert_eq!(SessionKind::default(), SessionKind::Browser);
}

#[test]
fn foreign_entries_are_everything_but_profile_directories() {
    let entries = vec![
        RootEntry { path: "alice-12-0-99".into(), is_dir: true },
        RootEntry { path: "notes.txt".into(), is_dir: false },
        RootEntry { path: "alice-12-0-98".into(), is_dir: false },
        RootEntry { path: "photos".into(), is_dir: true },
    ];
    assert_eq!(
        foreign_entries(&entries),
        vec!["notes.txt".to_string(), "alice-12-0-98".to_string(), "photos".to_string()]
    );
    assert!(foreign_entries(&Vec::new()).is_empty());
}

#[test]
fn registering_a_name_again_replaces_it() {
    let mut registry: Registry<u32> = Registry::new();
    assert_eq!(registry.insert("alice".into(), meta(Origin::Manual, None, SessionKind::Browser, None), 1), None);
    assert_eq!(registry.insert("alice".into(), meta(Origin::Agent, None, SessionKind::Browser, None), 2), Some(1));
    assert_eq!(registry.len(), 1);
    assert_eq!(registry.get("alice"), Some(&2));
}

#[test]
fn an_empty_data_dir_keeps_profiles_under_run() {
    assert_eq!(profile_root(""), "run");
    assert_eq!(profile_root("/data"), "/data/run");
    assert_eq!(profile_root("/data/"), "/data/run");
}
