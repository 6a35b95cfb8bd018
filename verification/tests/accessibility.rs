use lumen::accessibility::{budget_after, descend, measure, Bounds, Node, MAX_DEPTH, MAX_NODES};

fn leaf(reference: &str, role: &str) -> Node {
    Node {
        reference: reference.into(),
        role: role.into(),
        name: String::new(),
        description: String::new(),
        states: Vec::new(),
        bounds: None,
        children: Vec::new(),
    }
}

fn named(reference: &str, role: &str, name: &str) -> Node {
    let mut node = leaf(reference, role);
    node.name = name.into();
    node
}

#[test]
fn measure_counts_what_the_application_publishes() {
    let mut frame = named("frame", "frame", "Lumen Qt Fixture");
    let mut filler = leaf("filler", "filler");
    let mut text = named("l2", "text", "Name field");
    text.children.push(named("l4", "label", "Name"));
    filler.children = vec![
        named("l1", "label", "0"),
        text,
        named("l3", "push button", "Increment"),
    ];
    frame.children.push(filler);
    let mut app = named("app", "application", "qt-fixture");
    app.children.push(frame);
    let mut root = named("root", "desktop frame", "main");
    root.children.push(app);

    let stats = measure(&root);
    assert_eq!(stats.applications, 1);
    assert_eq!(stats.nodes, 7);
    assert_eq!(stats.named, 4);
    assert_eq!(stats.max_depth, 5);
}

#[test]
fn measure_reports_zero_named_for_a_titled_window_over_unnamed_controls() {
    let mut filler = leaf("filler", "filler");
    filler.children.push(leaf("button", "push button"));
    let mut frame = named("frame", "frame", "Painted Canvas");
    frame.children.push(filler);
    let mut app = named("app", "application", "qt-loader");
    app.children.push(frame);
    let mut root = named("root", "desktop frame", "main");
    root.children.push(app);

    let stats = measure(&root);
    assert_eq!(stats.applications, 1);
    assert_eq!(stats.nodes, 4);
    assert_eq!(stats.named, 0);
    assert_eq!(stats.max_depth, 4);
}

#[test]
fn measure_reports_zero_named_for_a_chrome_only_application() {
    let mut frame = leaf("frame", "frame");
    frame.children.push(leaf("filler", "filler"));
    let mut app = named("app", "application", "qt-loader");
    app.children.push(frame);
    let mut root = named("root", "desktop frame", "main");
    root.children.push(app);

    let stats = measure(&root);
    assert_eq!(stats.applications, 1);
    assert_eq!(stats.nodes, 3);
    assert_eq!(stats.named, 0);
    assert_eq!(stats.max_depth, 3);
}

#[test]
fn measure_reports_no_application_after_the_app_exits() {
    let root = named("root", "desktop frame", "main");
    let stats = measure(&root);
    assert_eq!(stats.applications, 0);
    assert_eq!(stats.nodes, 0);
    assert_eq!(stats.named, 0);
    assert_eq!(stats.max_depth, 0);
}

#[test]
fn measure_ignores_the_registry_process_names() {
    let mut app = named("app", "application", "qt-loader");
    app.children.push(leaf("frame", "frame"));
    let mut root = named("root", "desktop frame", "main");
    root.children.push(app);
    let stats = measure(&root);
    assert_eq!(stats.named, 0);
    assert_eq!(stats.max_depth, 2);
}

#[test]
fn find_searches_children_depth_first() {
    let mut root = leaf("root", "frame");
    root.children.push(leaf("a", "label"));
    let mut middle = leaf("b", "panel");
    middle.children.push(leaf("c", "button"));
    root.children.push(middle);

    assert_eq!(
        root.find("c").map(|node| node.role.as_str()),
        Some("button")
    );
    assert_eq!(root.find("a").map(|node| node.role.as_str()), Some("label"));
    assert!(root.find("missing").is_none());
}

#[test]
fn find_prefers_the_earlier_subtree() {
    let mut root = leaf("root", "frame");
    let mut first = leaf("p", "panel");
    first.children.push(leaf("dup", "first"));
    root.children.push(first);
    root.children.push(leaf("dup", "second"));
    assert_eq!(root.find("dup").map(|n| n.role.as_str()), Some("first"));
    assert_eq!(root.find("root").map(|n| n.role.as_str()), Some("frame"));
}

#[test]
fn measure_counts_every_application() {
    let mut root = named("root", "desktop frame", "main");
    let mut one = named("app1", "application", "one");
    let mut window = named("w", "frame", "title");
    window.children.push(named("b", "push button", "OK"));
    one.children.push(window);
    root.children.push(one);
    root.children.push(named("app2", "application", "two"));
    let stats = measure(&root);
    assert_eq!(stats.applications, 2);
    assert_eq!(stats.nodes, 4);
    assert_eq!(stats.named, 1);
    assert_eq!(stats.max_depth, 3);
    let _unused = Bounds { x: 0, y: 0, width: 1, height: 1 };
}

#[test]
fn a_walk_stops_at_its_depth_and_node_budget() {
    assert_eq!(budget_after(MAX_NODES), MAX_NODES - 1);
    assert_eq!(budget_after(1), 0);
    assert_eq!(budget_after(0), 0);
    assert!(descend(0, 1));
    assert!(descend(MAX_DEPTH - 1, 5));
    assert!(!descend(MAX_DEPTH, 5));
    assert!(!descend(3, 0));
}
