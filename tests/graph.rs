use vizzy::graph::{build_graph, sort_events_by_time, GraphBuilder};
use vizzy::types::{Content, ContentItem, Graph, JsonField, Message, Node, NodeType, SessionEvent};

fn s(x: &str) -> String {
    x.to_string()
}

fn node(id: &str, parent: Option<&str>, ts: i64, branch_level: u32) -> Node {
    Node {
        id: s(id),
        parent_id: parent.map(s),
        node_type: NodeType::UserMessage(s(id)),
        timestamp: ts,
        branch_level,
        agent_id: None,
    }
}

fn item(kind: &str) -> ContentItem {
    ContentItem {
        kind: JsonField::Text(s(kind)),
        text: JsonField::Missing,
        id: JsonField::Missing,
        name: JsonField::Missing,
        input: None,
        tool_use_id: JsonField::Missing,
        content: JsonField::Missing,
        is_error: JsonField::Missing,
    }
}

fn text_event(uuid: &str, parent: Option<&str>, role: &str, text: &str, ts: i64) -> SessionEvent {
    SessionEvent {
        uuid: s(uuid),
        parent_uuid: parent.map(s),
        is_sidechain: None,
        agent_id: None,
        session_id: None,
        event_type: s(role),
        message: Some(Message { role: s(role), content: Content::Text(s(text)), model: None, usage: None }),
        timestamp: ts,
    }
}

fn items_event(uuid: &str, role: &str, items: Vec<ContentItem>, ts: i64) -> SessionEvent {
    SessionEvent {
        uuid: s(uuid),
        parent_uuid: None,
        is_sidechain: Some(true),
        agent_id: None,
        session_id: None,
        event_type: s(role),
        message: Some(Message { role: s(role), content: Content::Items(items), model: None, usage: None }),
        timestamp: ts,
    }
}

fn sample_log() -> Vec<SessionEvent> {
    let call = ContentItem {
        id: JsonField::Text(s("toolu_1")),
        name: JsonField::Text(s("Read")),
        input: Some(s("{}")),
        ..item("tool_use")
    };
    let answer = ContentItem {
        tool_use_id: JsonField::Text(s("toolu_1")),
        content: JsonField::Text(s("file body")),
        ..item("tool_result")
    };
    vec![
        text_event("u1", None, "user", "start", 30),
        text_event("a1", Some("u1"), "assistant", "ok", 10),
        items_event("a2", "assistant", vec![call], 20),
        items_event("u2", "user", vec![answer], 20),
        text_event("a3", Some("u2"), "assistant", "done", 10),
    ]
}

#[test]
fn add_node_derives_edges() {
    let mut g = Graph::default();
    g.add_node(node("root", None, 0, 0));
    g.add_node(node("child", Some("root"), 1, 0));
    g.add_node(node("side", Some("child"), 2, 1));
    assert_eq!(g.nodes.len(), 3);
    assert_eq!(g.edges.len(), 2);
    assert_eq!(g.edges[0].from, "root");
    assert_eq!(g.edges[0].to, "child");
    assert!(!g.edges[0].is_branch);
    assert_eq!(g.edges[1].from, "child");
    assert_eq!(g.edges[1].to, "side");
    assert!(g.edges[1].is_branch);
}

#[test]
fn sort_by_time_is_stable() {
    let mut g = Graph::default();
    g.add_node(node("c", None, 5, 0));
    g.add_node(node("a1", None, 1, 0));
    g.add_node(node("b1", None, 3, 0));
    g.add_node(node("a2", None, 1, 0));
    g.add_node(node("b2", None, 3, 0));
    g.sort_by_time();
    let ids: Vec<&str> = g.nodes.iter().map(|n| n.id.as_str()).collect();
    assert_eq!(ids, vec!["a1", "a2", "b1", "b2", "c"]);
}

#[test]
fn build_orders_nodes_by_time() {
    let g = build_graph(sample_log());
    let ids: Vec<&str> = g.nodes.iter().map(|n| n.id.as_str()).collect();
    assert_eq!(ids, vec!["a1", "a3", "toolu_1", "u2:0", "u1"]);
    for w in g.nodes.windows(2) {
        assert!(w[0].timestamp <= w[1].timestamp);
    }
}

#[test]
fn rebuild_is_identical() {
    let first = build_graph(sample_log());
    let second = build_graph(sample_log());
    assert_eq!(first, second);
}

#[test]
fn edges_follow_parent_pointers() {
    let g = build_graph(sample_log());
    for n in &g.nodes {
        if let Some(p) = &n.parent_id {
            let matching: Vec<_> = g.edges.iter().filter(|e| &e.from == p && e.to == n.id).collect();
            assert_eq!(matching.len(), 1);
            assert_eq!(matching[0].is_branch, n.branch_level > 0);
        }
    }
    assert_eq!(g.edges.len(), 4);
}

#[test]
fn tool_result_points_at_tool_call() {
    let g = build_graph(sample_log());
    let call = g.nodes.iter().find(|n| matches!(n.node_type, NodeType::ToolUse { .. })).unwrap();
    let result = g.nodes.iter().find(|n| matches!(n.node_type, NodeType::ToolResult { .. })).unwrap();
    assert_eq!(call.id, "toolu_1");
    assert_eq!(call.parent_id, Some(s("a2")));
    assert_eq!(result.parent_id, Some(call.id.clone()));
    assert_ne!(result.parent_id, Some(s("a2")));
}

#[test]
fn builder_builds_afresh_each_time() {
    let mut b = GraphBuilder::new();
    assert!(b.graph().nodes.is_empty());
    let n = b.build_from_events(vec![text_event("x", None, "user", "hi", 50)]).nodes.len();
    assert_eq!(n, 1);
    let g = b.build_from_events(vec![text_event("y", Some("x"), "assistant", "yo", 40)]);
    let ids: Vec<&str> = g.nodes.iter().map(|n| n.id.as_str()).collect();
    assert_eq!(ids, vec!["y"]);
    assert_eq!(b.graph().edges.len(), 1);

    let first = b.build_from_events(sample_log()).clone();
    let second = b.build_from_events(sample_log()).clone();
    assert_eq!(first, second);
    assert_eq!(second, build_graph(sample_log()));
}

#[test]
fn build_of_empty_log_is_empty() {
    let g = build_graph(Vec::new());
    assert!(g.nodes.is_empty());
    assert!(g.edges.is_empty());
}

#[test]
fn merged_records_sort_stably() {
    let mut events = vec![
        text_event("main2", None, "user", "b", 20),
        text_event("main1", None, "user", "a", 10),
        text_event("agent1", None, "user", "c", 10),
        text_event("agent2", None, "user", "d", 5),
    ];
    sort_events_by_time(&mut events);
    let ids: Vec<&str> = events.iter().map(|e| e.uuid.as_str()).collect();
    assert_eq!(ids, vec!["agent2", "main1", "agent1", "main2"]);
}
