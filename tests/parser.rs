use vizzy::parser::{default_uuid, parse_event_to_node};
use vizzy::types::{Content, ContentItem, JsonField, Message, NodeType, SessionEvent};

fn s(x: &str) -> String {
    x.to_string()
}

fn t(x: &str) -> JsonField {
    JsonField::Text(x.to_string())
}

fn blank_item() -> ContentItem {
    ContentItem {
        kind: JsonField::Missing,
        text: JsonField::Missing,
        id: JsonField::Missing,
        name: JsonField::Missing,
        input: None,
        tool_use_id: JsonField::Missing,
        content: JsonField::Missing,
        is_error: JsonField::Missing,
    }
}

fn text_item(x: &str) -> ContentItem {
    ContentItem { kind: t("text"), text: t(x), ..blank_item() }
}

fn use_item(id: &str, name: &str, input: &str) -> ContentItem {
    ContentItem { kind: t("tool_use"), id: t(id), name: t(name), input: Some(s(input)), ..blank_item() }
}

fn result_item(tool_use_id: &str, content: JsonField, is_error: JsonField) -> ContentItem {
    ContentItem { kind: t("tool_result"), tool_use_id: t(tool_use_id), content, is_error, ..blank_item() }
}

fn event(uuid: &str, event_type: &str, role: Option<&str>, content: Content) -> SessionEvent {
    SessionEvent {
        uuid: s(uuid),
        parent_uuid: Some(s("parent")),
        is_sidechain: None,
        agent_id: None,
        session_id: Some(s("sess")),
        event_type: s(event_type),
        message: role.map(|r| Message { role: s(r), content, model: None, usage: None }),
        timestamp: 1_000,
    }
}

#[test]
fn user_plain_text_gives_user_message() {
    let nodes = parse_event_to_node(event("e1", "user", Some("user"), Content::Text(s("hi there"))));
    assert_eq!(nodes.len(), 1);
    assert_eq!(nodes[0].id, "e1");
    assert_eq!(nodes[0].parent_id, Some(s("parent")));
    assert_eq!(nodes[0].node_type, NodeType::UserMessage(s("hi there")));
    assert_eq!(nodes[0].timestamp, 1_000);
    assert_eq!(nodes[0].branch_level, 0);
}

#[test]
fn user_empty_text_gives_nothing() {
    let nodes = parse_event_to_node(event("e1", "user", Some("user"), Content::Text(s(""))));
    assert!(nodes.is_empty());
    let nodes = parse_event_to_node(event("e2", "user", Some("user"), Content::Other));
    assert!(nodes.is_empty());
}

#[test]
fn text_items_are_joined_with_spaces() {
    let items = vec![text_item("one"), blank_item(), use_item("x", "Read", "{}"), text_item("two")];
    let nodes = parse_event_to_node(event("e1", "user", Some("user"), Content::Items(items)));
    assert_eq!(nodes.len(), 1);
    assert_eq!(nodes[0].node_type, NodeType::UserMessage(s("one two")));
}

#[test]
fn tool_results_link_to_their_calls() {
    let items = vec![
        text_item("ignored"),
        result_item("toolu_a", t("done"), JsonField::Missing),
        result_item("toolu_b", JsonField::Other, JsonField::Flag(true)),
        result_item("toolu_c", JsonField::Missing, JsonField::Missing),
    ];
    let nodes = parse_event_to_node(event("e9", "user", Some("user"), Content::Items(items)));
    assert_eq!(nodes.len(), 2);
    assert_eq!(nodes[0].id, "e9:0");
    assert_eq!(nodes[0].parent_id, Some(s("toolu_a")));
    assert_eq!(nodes[0].node_type, NodeType::ToolResult { output: s("done"), is_error: false });
    assert_eq!(nodes[1].id, "e9:1");
    assert_eq!(nodes[1].parent_id, Some(s("toolu_b")));
    assert_eq!(nodes[1].node_type, NodeType::ToolResult { output: s(""), is_error: true });
}

#[test]
fn assistant_text_and_tool_uses() {
    let items = vec![
        text_item("Let me look."),
        use_item("toolu_1", "Read", "{\n  \"file_path\": \"/a\"\n}"),
        ContentItem { name: JsonField::Missing, ..use_item("toolu_bad", "", "{}") },
        use_item("toolu_2", "Bash", "{}"),
    ];
    let nodes = parse_event_to_node(event("a1", "assistant", Some("assistant"), Content::Items(items)));
    assert_eq!(nodes.len(), 3);
    assert_eq!(nodes[0].id, "a1");
    assert_eq!(nodes[0].node_type, NodeType::AssistantMessage(s("Let me look.")));
    assert_eq!(nodes[1].id, "toolu_1");
    assert_eq!(nodes[1].parent_id, Some(s("a1")));
    assert_eq!(
        nodes[1].node_type,
        NodeType::ToolUse { name: s("Read"), input: s("{\n  \"file_path\": \"/a\"\n}") }
    );
    assert_eq!(nodes[2].id, "toolu_2");
    assert_eq!(nodes[2].parent_id, Some(s("a1")));
    for n in &nodes {
        assert_eq!(n.timestamp, 1_000);
    }
}

#[test]
fn assistant_without_text_gives_only_tools() {
    let items = vec![use_item("toolu_1", "Read", "{}")];
    let nodes = parse_event_to_node(event("a1", "assistant", Some("assistant"), Content::Items(items)));
    assert_eq!(nodes.len(), 1);
    assert_eq!(nodes[0].id, "toolu_1");
}

#[test]
fn other_roles_are_ignored() {
    let nodes = parse_event_to_node(event("x", "system", Some("system"), Content::Text(s("note"))));
    assert!(nodes.is_empty());
    let nodes = parse_event_to_node(event("y", "summary", None, Content::Other));
    assert!(nodes.is_empty());
}

#[test]
fn progress_event_adds_progress_node() {
    let nodes = parse_event_to_node(event("p1", "progress", None, Content::Other));
    assert_eq!(nodes.len(), 1);
    assert_eq!(nodes[0].id, "p1");
    assert_eq!(nodes[0].node_type, NodeType::Progress(s("Progress update")));

    let nodes = parse_event_to_node(event("p2", "progress", Some("assistant"), Content::Text(s("hey"))));
    assert_eq!(nodes.len(), 2);
    assert_eq!(nodes[0].node_type, NodeType::AssistantMessage(s("hey")));
    assert_eq!(nodes[1].node_type, NodeType::Progress(s("Progress update")));
}

#[test]
fn sidechain_and_agent_are_copied() {
    let mut e = event("e1", "user", Some("user"), Content::Text(s("sub")));
    e.is_sidechain = Some(true);
    e.agent_id = Some(s("agent-7"));
    let nodes = parse_event_to_node(e);
    assert_eq!(nodes[0].branch_level, 1);
    assert_eq!(nodes[0].agent_id, Some(s("agent-7")));

    let mut e = event("e2", "user", Some("user"), Content::Text(s("main")));
    e.is_sidechain = Some(false);
    assert_eq!(parse_event_to_node(e)[0].branch_level, 0);
}

#[test]
fn generated_ids() {
    assert_eq!(default_uuid(0), "generated-0");
    assert_eq!(default_uuid(42), "generated-42");
}
