use lumen::cdp::{
    close_step, index_of_target, is_blocked_navigation, managed_page, reap_again, reap_step,
    replacement_for, tab_infos, ReapStep,
    websocket_url, CloseStep, NavigationBlocked, OnlyManagedTab, PageListing, TargetListing,
};

fn ids(list: &[&str]) -> Vec<String> {
    list.iter().map(|s| s.to_string()).collect()
}

#[test]
fn tabs_are_listed_in_order_with_the_managed_one_marked() {
    let pages = vec![
        PageListing { target_id: "A".into(), url: Some("https://a.test/".into()), title: Some("A".into()) },
        PageListing { target_id: "B".into(), url: None, title: None },
    ];
    let tabs = tab_infos(&pages, "B");
    assert_eq!(tabs.len(), 2);
    assert_eq!((tabs[0].index, tabs[0].url.as_str(), tabs[0].active), (0, "https://a.test/", false));
    assert_eq!((tabs[1].index, tabs[1].url.as_str(), tabs[1].title.as_str(), tabs[1].active), (1, "", "", true));
}

#[test]
fn closing_a_tab_depends_on_whether_it_is_managed() {
    let pages = ids(&["A", "B", "C"]);
    assert_eq!(close_step(&pages, 5, "B"), CloseStep::NotFound);
    assert_eq!(close_step(&pages, 0, "B"), CloseStep::CloseOther);
    assert_eq!(close_step(&pages, 1, "B"), CloseStep::ReplaceManaged);
    assert_eq!(replacement_for(&pages, "A"), Some(1));
    assert_eq!(replacement_for(&ids(&["A"]), "A"), None);
    assert_eq!(OnlyManagedTab.message(), "cannot close the only managed tab");
    assert_eq!(index_of_target(&pages, "C"), Some(2));
    assert_eq!(index_of_target(&pages, "Z"), None);
}

#[test]
fn blocked_navigations_are_told_apart() {
    assert!(is_blocked_navigation("net::ERR_BLOCKED_BY_CLIENT at https://x"));
    assert!(!is_blocked_navigation("net::ERR_NAME_NOT_RESOLVED"));
    let blocked = NavigationBlocked { url: "https://evil.test/".into() };
    assert_eq!(blocked.message(), "navigation blocked by policy: https://evil.test/");
}

#[test]
fn the_websocket_of_a_target_is_the_first_listed_one() {
    let targets = vec![
        TargetListing { id: Some("A".into()), websocket_url: None },
        TargetListing { id: None, websocket_url: Some("ws://nobody".into()) },
        TargetListing { id: Some("A".into()), websocket_url: Some("ws://a".into()) },
        TargetListing { id: Some("A".into()), websocket_url: Some("ws://later".into()) },
    ];
    assert_eq!(websocket_url(&targets, "A"), Some("ws://a".to_string()));
    assert_eq!(websocket_url(&targets, "B"), None);
}

#[test]
fn a_connection_keeps_the_first_page_and_reaps_the_rest() {
    assert_eq!(managed_page(&ids(&["a", "b"])), Some(0));
    assert_eq!(managed_page(&ids(&[])), None);
    match reap_step("b", &ids(&["a", "b", "c", "b"])) {
        ReapStep::Close(v) => assert_eq!(v, vec![0, 2]),
        ReapStep::Done => panic!("extra pages remain"),
    }
    assert!(matches!(reap_step("b", &ids(&["b"])), ReapStep::Done));
    assert!(matches!(reap_step("b", &ids(&[])), ReapStep::Done));
    assert!(reap_again(0) && reap_again(11));
    assert!(!reap_again(12));
}
