use vizzy::state::{Action, AppState, Command, SessionInfo};
use vizzy::types::{Graph, Node, NodeType};

fn s(x: &str) -> String {
    x.to_string()
}

fn node(id: &str, kind: NodeType, ts: i64) -> Node {
    Node { id: s(id), parent_id: None, node_type: kind, timestamp: ts, branch_level: 0, agent_id: None }
}

fn user(id: &str, ts: i64) -> Node {
    node(id, NodeType::UserMessage(s(id)), ts)
}

fn asst(id: &str, ts: i64) -> Node {
    node(id, NodeType::AssistantMessage(s(id)), ts)
}

fn tool(id: &str, ts: i64) -> Node {
    node(id, NodeType::ToolUse { name: s("Bash"), input: s("{}") }, ts)
}

fn result_for(id: &str, call: &str, ts: i64) -> Node {
    Node {
        parent_id: Some(s(call)),
        ..node(id, NodeType::ToolResult { output: s("ok"), is_error: false }, ts)
    }
}

fn graph_of(nodes: Vec<Node>) -> Graph {
    let mut g = Graph::default();
    for n in nodes {
        g.add_node(n);
    }
    g
}

fn users(n: usize) -> Vec<Node> {
    (0..n).map(|i| user(&format!("u{}", i), i as i64)).collect()
}

fn session(id: &str) -> SessionInfo {
    SessionInfo { id: s(id), timestamp: 0, node_count: 0, waiting_for_user: false }
}

#[test]
fn new_state_starts_on_last_user_message() {
    let g = graph_of(vec![user("u0", 0), asst("a0", 1), user("u1", 2), asst("a1", 3)]);
    let st = AppState::new(g, s("sess"), vec![]);
    assert_eq!(st.current_level, 0);
    assert_eq!(st.cursor_in_level, 1);
    assert_eq!(st.get_current_node_index(), Some(2));
    assert!(st.timeline_open);
    assert!(!st.details_open);
    assert!(!st.session_list_open);
    assert_eq!(st.focused_node, None);

    let st = AppState::new(graph_of(vec![asst("a0", 1)]), s("sess"), vec![]);
    assert_eq!(st.cursor_in_level, 0);
    assert_eq!(st.get_current_node_index(), None);
}

#[test]
fn follow_mode_tracks_new_tail() {
    let mut st = AppState::new(graph_of(users(10)), s("sess"), vec![]);
    assert_eq!(st.cursor_in_level, 9);
    assert!(st.reconcile(graph_of(users(13))));
    assert_eq!(st.current_level, 0);
    assert_eq!(st.cursor_in_level, 12);
}

#[test]
fn follow_mode_holds_scrolled_back_position() {
    let mut st = AppState::new(graph_of(users(10)), s("sess"), vec![]);
    st.cursor_in_level = 3;
    assert!(st.reconcile(graph_of(users(13))));
    assert_eq!(st.cursor_in_level, 3);
}

#[test]
fn follow_mode_counts_next_to_last_as_end() {
    let mut st = AppState::new(graph_of(users(10)), s("sess"), vec![]);
    st.cursor_in_level = 8;
    assert!(st.reconcile(graph_of(users(13))));
    assert_eq!(st.cursor_in_level, 12);
}

#[test]
fn reconcile_ignores_same_node_count() {
    let mut st = AppState::new(graph_of(users(4)), s("sess"), vec![]);
    st.cursor_in_level = 1;
    let other = graph_of(vec![asst("a", 0), asst("b", 1), asst("c", 2), asst("d", 3)]);
    assert!(!st.reconcile(other));
    assert_eq!(st.graph.nodes[0].id, "u0");
    assert_eq!(st.cursor_in_level, 1);
}

#[test]
fn reconcile_clamps_lane_and_position() {
    let mut st = AppState::new(graph_of(vec![user("u", 0), tool("t1", 1), tool("t2", 2)]), s("sess"), vec![]);
    st.current_level = 2;
    st.cursor_in_level = 0;
    let g = graph_of(vec![user("u", 0), asst("a", 1), user("v", 2), user("w", 3)]);
    assert!(st.reconcile(g));
    assert_eq!(st.current_level, 1);
    assert_eq!(st.cursor_in_level, 0);
}

#[test]
fn lane_switch_picks_nearest_in_time() {
    let g = graph_of(vec![
        user("u", 0),
        tool("t1", 90),
        asst("a1", 100),
        tool("t2", 480),
        asst("a2", 500),
        tool("t3", 900),
    ]);
    let mut st = AppState::new(g, s("sess"), vec![]);
    st.current_level = 1;
    st.cursor_in_level = 1;
    assert_eq!(st.selected_node().unwrap().id, "a2");
    st.level_down();
    assert_eq!(st.current_level, 2);
    assert_eq!(st.cursor_in_level, 1);
    assert_eq!(st.selected_node().unwrap().id, "t2");
    st.level_up();
    assert_eq!(st.current_level, 1);
    assert_eq!(st.selected_node().unwrap().id, "a2");
}

#[test]
fn lane_switch_ties_go_to_first() {
    let g = graph_of(vec![tool("t1", 90), asst("a", 100), tool("t2", 110)]);
    let mut st = AppState::new(g, s("sess"), vec![]);
    st.current_level = 1;
    st.cursor_in_level = 0;
    st.level_down();
    assert_eq!(st.cursor_in_level, 0);
    assert_eq!(st.selected_node().unwrap().id, "t1");
}

#[test]
fn lane_switch_without_selection_goes_to_start() {
    let g = graph_of(vec![user("u", 0), asst("a1", 1), asst("a2", 2)]);
    let mut st = AppState::new(g, s("sess"), vec![]);
    st.cursor_in_level = 5;
    st.level_down();
    assert_eq!(st.current_level, 1);
    assert_eq!(st.cursor_in_level, 0);
}

#[test]
fn lane_switch_stops_at_ends() {
    let g = graph_of(vec![user("u", 0), asst("a", 1)]);
    let mut st = AppState::new(g, s("sess"), vec![]);
    assert_eq!(st.get_max_level(), 1);
    st.level_up();
    assert_eq!(st.current_level, 0);
    st.level_down();
    assert_eq!(st.current_level, 1);
    st.level_down();
    assert_eq!(st.current_level, 1);
}

#[test]
fn max_level_of_empty_graph_is_one() {
    let st = AppState::new(Graph::default(), s("sess"), vec![]);
    assert_eq!(st.get_max_level(), 1);
    assert_eq!(st.get_nodes_in_current_level(), 0);
}

#[test]
fn moves_stay_within_lane() {
    let mut st = AppState::new(graph_of(users(3)), s("sess"), vec![]);
    assert_eq!(st.cursor_in_level, 2);
    st.move_right();
    assert_eq!(st.cursor_in_level, 2);
    st.move_left();
    st.move_left();
    assert_eq!(st.cursor_in_level, 0);
    st.move_left();
    assert_eq!(st.cursor_in_level, 0);
    st.move_right();
    assert_eq!(st.cursor_in_level, 1);
    st.move_to_last();
    assert_eq!(st.cursor_in_level, 2);
    st.move_to_first();
    assert_eq!(st.cursor_in_level, 0);
}

#[test]
fn focus_toggles_on_current_node() {
    let mut st = AppState::new(graph_of(vec![asst("a", 0), user("u", 1)]), s("sess"), vec![]);
    st.toggle_focus();
    assert_eq!(st.focused_node, Some(1));
    st.toggle_focus();
    assert_eq!(st.focused_node, None);
    st.cursor_in_level = 4;
    st.toggle_focus();
    assert_eq!(st.focused_node, None);
}

#[test]
fn tool_is_active_until_its_result_appears() {
    let mut nodes = vec![user("u", 0), result_for("early", "t1", 1), tool("t1", 2), asst("a", 3)];
    let st = AppState::new(graph_of(nodes.clone()), s("sess"), vec![]);
    assert!(st.is_node_active(2));
    assert!(!st.is_node_active(0));
    assert!(!st.is_node_active(99));

    nodes.push(result_for("other", "t9", 4));
    let st = AppState::new(graph_of(nodes.clone()), s("sess"), vec![]);
    assert!(st.is_node_active(2));

    nodes.push(result_for("late", "t1", 5));
    let st = AppState::new(graph_of(nodes), s("sess"), vec![]);
    assert!(!st.is_node_active(2));
}

#[test]
fn session_picker_navigation() {
    let sessions = vec![session("s0"), session("s1"), session("s2")];
    let mut st = AppState::new(Graph::default(), s("s1"), sessions);
    st.toggle_session_list();
    assert!(st.session_list_open);
    assert_eq!(st.session_list_cursor, 1);
    st.session_list_down();
    st.session_list_down();
    assert_eq!(st.session_list_cursor, 2);
    assert_eq!(st.get_selected_session(), Some(s("s2")));
    st.session_list_up();
    st.session_list_up();
    st.session_list_up();
    assert_eq!(st.session_list_cursor, 0);
    st.toggle_session_list();
    assert!(!st.session_list_open);

    let mut st = AppState::new(Graph::default(), s("gone"), vec![session("s0")]);
    st.session_list_cursor = 3;
    assert_eq!(st.get_selected_session(), None);
    st.toggle_session_list();
    assert_eq!(st.session_list_cursor, 0);
}

#[test]
fn switching_session_replaces_graph() {
    let mut st = AppState::new(graph_of(users(2)), s("s0"), vec![]);
    st.switch_session(graph_of(users(5)), s("s1"));
    assert_eq!(st.session_id, "s1");
    assert_eq!(st.graph.nodes.len(), 5);
    assert_eq!(st.cursor_in_level, 1);
}

#[test]
fn commands_route_to_lanes_or_picker() {
    let g = graph_of(vec![user("u0", 0), user("u1", 1), asst("a", 2)]);
    let mut st = AppState::new(g, s("s1"), vec![session("s0"), session("s1")]);
    assert_eq!(st.handle(Command::Left), Action::Continue);
    assert_eq!(st.cursor_in_level, 0);
    assert_eq!(st.handle(Command::Down), Action::Continue);
    assert_eq!(st.current_level, 1);
    assert_eq!(st.handle(Command::Up), Action::Continue);
    assert_eq!(st.current_level, 0);

    st.handle(Command::ToggleSessionList);
    assert!(st.session_list_open);
    assert_eq!(st.session_list_cursor, 1);
    st.handle(Command::Up);
    assert_eq!(st.session_list_cursor, 0);
    assert_eq!(st.current_level, 0);
    let before = st.cursor_in_level;
    st.handle(Command::Right);
    assert_eq!(st.cursor_in_level, before);
    st.timeline_open = false;
    assert_eq!(st.handle(Command::Select), Action::LoadSession(s("s0")));
    assert!(!st.session_list_open);
    assert!(st.timeline_open);

    st.handle(Command::ToggleSessionList);
    assert_eq!(st.handle(Command::Select), Action::Continue);
    assert_eq!(st.handle(Command::Select), Action::Continue);

    st.handle(Command::ToggleDetails);
    assert!(st.details_open);
    st.handle(Command::ToggleTimeline);
    assert!(!st.timeline_open);
    st.handle(Command::Last);
    assert_eq!(st.cursor_in_level, 1);
    st.handle(Command::First);
    assert_eq!(st.cursor_in_level, 0);
    st.handle(Command::ToggleFocus);
    assert_eq!(st.focused_node, Some(0));
    assert_eq!(st.handle(Command::Quit), Action::Quit);
}
