//! The event model: log records as the parser reads them, and the nodes,
//! edges and graph derived from them.

use vstd::multiset::Multiset;
use vstd::prelude::*;

verus! {

/// One field of a JSON object, as far as the parser looks at it.
#[derive(Debug, Clone, PartialEq, Eq)]
pub enum JsonField {
    /// The key is absent.
    Missing,
    /// The value is a JSON string.
    Text(String),
    /// The value is a JSON boolean.
    Flag(bool),
    /// The value is present but neither a string nor a boolean.
    Other,
}

/// One element of a message's content sequence. Every field is read from the
/// element's JSON object; an element that is not an object has every field
/// missing.
#[derive(Debug, Clone, PartialEq, Eq)]
pub struct ContentItem {
    /// The `type` tag.
    pub kind: JsonField,
    pub text: JsonField,
    pub id: JsonField,
    pub name: JsonField,
    /// The `input` value, pretty-printed; `None` when absent.
    pub input: Option<String>,
    pub tool_use_id: JsonField,
    pub content: JsonField,
    pub is_error: JsonField,
}

/// A message's content: a plain string, a sequence of typed items, or some
/// other JSON value.
#[derive(Debug, Clone, PartialEq, Eq)]
pub enum Content {
    Text(String),
    Items(Vec<ContentItem>),
    Other,
}

/// Token-usage counters; carried along, never interpreted.
#[derive(Debug, Clone, PartialEq, Eq)]
pub struct Usage {
    pub input_tokens: Option<u32>,
    pub output_tokens: Option<u32>,
    pub cache_read_input_tokens: Option<u32>,
}

#[derive(Debug, Clone, PartialEq, Eq)]
pub struct Message {
    pub role: String,
    pub content: Content,
    pub model: Option<String>,
    pub usage: Option<Usage>,
}

/// One log record. `timestamp` is in microseconds since the Unix epoch.
#[derive(Debug, Clone, PartialEq, Eq)]
pub struct SessionEvent {
    pub uuid: String,
    pub parent_uuid: Option<String>,
    pub is_sidechain: Option<bool>,
    pub agent_id: Option<String>,
    pub session_id: Option<String>,
    pub event_type: String,
    pub message: Option<Message>,
    pub timestamp: i64,
}

#[derive(Debug, Clone, PartialEq, Eq)]
pub enum NodeType {
    UserMessage(String),
    AssistantMessage(String),
    ToolUse { name: String, input: String },
    ToolResult { output: String, is_error: bool },
    AgentStart { agent_id: String, agent_type: String },
    AgentEnd { agent_id: String },
    Progress(String),
}

/// A graph node. `timestamp` is in microseconds since the Unix epoch;
/// `branch_level` is 0 on the main chain and positive on a side-chain.
#[derive(Debug, Clone, PartialEq, Eq)]
pub struct Node {
    pub id: String,
    pub parent_id: Option<String>,
    pub node_type: NodeType,
    pub timestamp: i64,
    pub branch_level: u32,
    pub agent_id: Option<String>,
}

#[derive(Debug, Clone, PartialEq, Eq)]
pub struct Edge {
    pub from: String,
    pub to: String,
    pub is_branch: bool,
}

#[derive(Debug, Clone, PartialEq, Eq)]
pub struct Graph {
    pub nodes: Vec<Node>,
    pub edges: Vec<Edge>,
    pub active_branches: Vec<String>,
}

// ---------------------------------------------------------------------------
// Mathematical views

pub ghost enum KindView {
    UserMessage(Seq<char>),
    AssistantMessage(Seq<char>),
    ToolUse { name: Seq<char>, input: Seq<char> },
    ToolResult { output: Seq<char>, is_error: bool },
    AgentStart { agent_id: Seq<char>, agent_type: Seq<char> },
    AgentEnd { agent_id: Seq<char> },
    Progress(Seq<char>),
}

pub ghost struct NodeView {
    pub id: Seq<char>,
    pub parent_id: Option<Seq<char>>,
    pub kind: KindView,
    pub timestamp: i64,
    pub branch_level: u32,
    pub agent_id: Option<Seq<char>>,
}

pub ghost struct EdgeView {
    pub from: Seq<char>,
    pub to: Seq<char>,
    pub is_branch: bool,
}

pub ghost struct GraphView {
    pub nodes: Seq<NodeView>,
    pub edges: Seq<EdgeView>,
}

pub open spec fn opt_view(o: Option<String>) -> Option<Seq<char>> {
    match o {
        Some(s) => Some(s@),
        None => None,
    }
}

impl View for NodeType {
    type V = KindView;

    open spec fn view(&self) -> KindView {
        match self {
            NodeType::UserMessage(t) => KindView::UserMessage(t@),
            NodeType::AssistantMessage(t) => KindView::AssistantMessage(t@),
            NodeType::ToolUse { name, input } => KindView::ToolUse { name: name@, input: input@ },
            NodeType::ToolResult { output, is_error } => KindView::ToolResult {
                output: output@,
                is_error: *is_error,
            },
            NodeType::AgentStart { agent_id, agent_type } => KindView::AgentStart {
                agent_id: agent_id@,
                agent_type: agent_type@,
            },
            NodeType::AgentEnd { agent_id } => KindView::AgentEnd { agent_id: agent_id@ },
            NodeType::Progress(t) => KindView::Progress(t@),
        }
    }
}

impl View for Node {
    type V = NodeView;

    open spec fn view(&self) -> NodeView {
        NodeView {
            id: self.id@,
            parent_id: opt_view(self.parent_id),
            kind: self.node_type@,
            timestamp: self.timestamp,
            branch_level: self.branch_level,
            agent_id: opt_view(self.agent_id),
        }
    }
}

impl View for Edge {
    type V = EdgeView;

    open spec fn view(&self) -> EdgeView {
        EdgeView { from: self.from@, to: self.to@, is_branch: self.is_branch }
    }
}

impl View for Graph {
    type V = GraphView;

    open spec fn view(&self) -> GraphView {
        GraphView {
            nodes: self.nodes@.map_values(|n: Node| n@),
            edges: self.edges@.map_values(|e: Edge| e@),
        }
    }
}

/// The views of a sequence of nodes.
pub open spec fn views(s: Seq<Node>) -> Seq<NodeView> {
    s.map_values(|n: Node| n@)
}

impl KindView {
    pub open spec fn is_message(self) -> bool {
        self is UserMessage || self is AssistantMessage
    }
}

/// The edge that adding `n` derives, if `n` has a parent.
pub open spec fn edge_of(n: NodeView) -> Option<EdgeView> {
    match n.parent_id {
        Some(p) => Some(EdgeView { from: p, to: n.id, is_branch: n.branch_level > 0 }),
        None => None,
    }
}

/// The edges derived from a node sequence, in the order of the nodes.
pub open spec fn edges_of(nodes: Seq<NodeView>) -> Seq<EdgeView>
    decreases nodes.len(),
{
    if nodes.len() == 0 {
        Seq::empty()
    } else {
        let rest = edges_of(nodes.drop_last());
        match edge_of(nodes.last()) {
            Some(e) => rest.push(e),
            None => rest,
        }
    }
}

/// The derived edges as a multiset: what stays of them when the nodes are
/// reordered.
pub open spec fn edge_bag(nodes: Seq<NodeView>) -> Multiset<EdgeView>
    decreases nodes.len(),
{
    if nodes.len() == 0 {
        Multiset::empty()
    } else {
        let rest = edge_bag(nodes.drop_last());
        match edge_of(nodes.last()) {
            Some(e) => rest.insert(e),
            None => rest,
        }
    }
}

/// `s` with `x` inserted after the last element whose timestamp is not
/// greater than that of `x`: one step of a stable insertion sort.
pub open spec fn insert_by_time(s: Seq<NodeView>, x: NodeView) -> Seq<NodeView>
    decreases s.len(),
{
    if s.len() == 0 {
        seq![x]
    } else if s.last().timestamp <= x.timestamp {
        s.push(x)
    } else {
        insert_by_time(s.drop_last(), x).push(s.last())
    }
}

/// The stable sort of `s` by timestamp.
pub open spec fn sorted_by_time(s: Seq<NodeView>) -> Seq<NodeView>
    decreases s.len(),
{
    if s.len() == 0 {
        Seq::empty()
    } else {
        insert_by_time(sorted_by_time(s.drop_last()), s.last())
    }
}

/// The nodes of `s` whose timestamp is `t`, in their order in `s`.
pub open spec fn at_time(s: Seq<NodeView>, t: i64) -> Seq<NodeView>
    decreases s.len(),
{
    if s.len() == 0 {
        Seq::empty()
    } else if s.last().timestamp == t {
        at_time(s.drop_last(), t).push(s.last())
    } else {
        at_time(s.drop_last(), t)
    }
}

pub open spec fn is_time_ordered(s: Seq<NodeView>) -> bool {
    forall|i: int, j: int| 0 <= i <= j < s.len() ==> s[i].timestamp <= s[j].timestamp
}

/// A graph's edges are those its nodes derive, in some order.
pub open spec fn edges_match_nodes(g: GraphView) -> bool {
    g.edges.to_multiset() == edge_bag(g.nodes)
}

} // verus!
