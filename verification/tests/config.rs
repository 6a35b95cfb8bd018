use lumen::config::{apply_overrides, http_host, parse_u16, url_host, Config, Policy, PolicyError, Viewport};

#[test]
fn non_http_schemes_are_unrestricted() {
    let policy = Policy {
        allow_hosts: vec!["example.com".into()],
        blocked_hosts: vec![],
    };
    assert!(policy.check("data:text/html,hi").is_ok());
    assert!(policy.check("about:blank").is_ok());
}

#[test]
fn allow_list_restricts_and_blocks_win() {
    let policy = Policy {
        allow_hosts: vec!["example.com".into(), ".trusted.test".into()],
        blocked_hosts: vec!["evil.example.com".into()],
    };
    assert!(policy.check("https://example.com/a").is_ok());
    assert!(policy.check("https://api.trusted.test/").is_ok());
    assert!(policy.check("https://other.com/").is_err());
    assert!(policy.check("https://evil.example.com/").is_err());
}

#[test]
fn empty_allow_list_permits_everything_unblocked() {
    let policy = Policy {
        allow_hosts: vec![],
        blocked_hosts: vec!["blocked.test".into()],
    };
    assert!(policy.check("https://anything.test/").is_ok());
    assert!(policy.check("https://blocked.test/").is_err());
}

#[test]
fn restriction_is_detected_from_either_host_list() {
    assert!(!Policy::default().is_restricted());
    assert!(Policy {
        allow_hosts: vec!["example.com".into()],
        blocked_hosts: vec![],
    }
    .is_restricted());
    assert!(Policy {
        allow_hosts: vec![],
        blocked_hosts: vec!["evil.test".into()],
    }
    .is_restricted());
}

#[test]
fn host_matching_ignores_dns_case_and_trailing_dots() {
    let policy = Policy {
        allow_hosts: vec!["Example.COM.".into()],
        blocked_hosts: vec![".Evil.TEST.".into()],
    };
    assert!(policy.check("https://example.com./").is_ok());
    assert!(policy.check("https://evil.test./").is_err());
    assert!(policy.check("https://api.eViL.TeSt/").is_err());
}

#[test]
fn refusals_name_the_host_and_the_reason() {
    let policy = Policy {
        allow_hosts: vec!["example.com".into()],
        blocked_hosts: vec!["evil.test".into()],
    };
    let blocked = policy.check("https://evil.test/x").unwrap_err();
    assert_eq!(blocked, PolicyError::Blocked("evil.test".into()));
    assert_eq!(blocked.message(), "host 'evil.test' is blocked by policy");
    let other = policy.check("http://other.test/").unwrap_err();
    assert_eq!(other.message(), "host 'other.test' is not in the allow list");
}

#[test]
fn url_hosts_come_only_from_http_urls() {
    assert_eq!(url_host("https://Example.com:8080/a"), Some("example.com".to_string()));
    assert_eq!(url_host("http://127.0.0.1/"), Some("127.0.0.1".to_string()));
    assert_eq!(url_host("file:///etc/passwd"), None);
    assert_eq!(url_host("not a url"), None);
}

#[test]
fn defaults_match_the_documented_configuration() {
    let config = Config::default();
    assert_eq!(config.host, "127.0.0.1");
    assert_eq!(config.port, 8899);
    assert_eq!(config.max_agents, 8);
    assert_eq!(config.data_dir, "/data/agents");
    assert_eq!(config.chrome_bin, "chromium");
    assert_eq!(config.default_viewport, Viewport { width: 1440, height: 900 });
    assert_eq!(config.feedback_db, "/data/feedback.db");
    assert_eq!(config.audit_retain, 10_000);
    assert!(!config.policy.is_restricted());
}

#[test]
fn ports_parse_like_the_standard_library() {
    assert_eq!(parse_u16("8899"), Some(8899));
    assert_eq!(parse_u16("+80"), Some(80));
    assert_eq!(parse_u16("065535"), Some(65535));
    assert_eq!(parse_u16("65536"), None);
    assert_eq!(parse_u16(""), None);
    assert_eq!(parse_u16("+"), None);
    assert_eq!(parse_u16("-1"), None);
    assert_eq!(parse_u16(" 80"), None);
    assert_eq!(parse_u16("80a"), None);
    for text in ["0", "1", "443", "8080", "65535", "65536", "x", "+12"] {
        assert_eq!(parse_u16(text), text.parse::<u16>().ok(), "{text}");
    }
}

#[test]
fn environment_overrides_port_and_browser() {
    let config = apply_overrides(Config::default(), Some("9000".into()), Some("/opt/chrome".into())).unwrap();
    assert_eq!(config.port, 9000);
    assert_eq!(config.chrome_bin, "/opt/chrome");
    let unchanged = apply_overrides(Config::default(), None, None).unwrap();
    assert_eq!(unchanged.port, 8899);
    assert_eq!(unchanged.chrome_bin, "chromium");
    let err = apply_overrides(Config::default(), Some("http".into()), None).unwrap_err();
    assert_eq!(err, "invalid LUMEN_PORT 'http'");
}

#[test]
fn only_http_and_https_hosts_are_taken_from_a_parse() {
    let parsed = |scheme: &str, host: Option<&str>| Some((scheme.to_string(), host.map(str::to_string)));
    assert_eq!(http_host(parsed("https", Some("example.com"))).as_deref(), Some("example.com"));
    assert_eq!(http_host(parsed("http", None)), None);
    assert_eq!(http_host(parsed("ftp", Some("example.com"))), None);
    assert_eq!(http_host(None), None);
}

#[test]
fn overrides_keep_the_navigation_policy() {
    let mut config = Config::default();
    config.policy = Policy { allow_hosts: vec!["example.com".into()], blocked_hosts: vec!["evil.test".into()] };
    let out = apply_overrides(config, Some("9000".into()), None).unwrap();
    assert_eq!(out.port, 9000);
    assert_eq!(out.policy.allow_hosts, vec!["example.com".to_string()]);
    assert_eq!(out.policy.blocked_hosts, vec!["evil.test".to_string()]);
}
