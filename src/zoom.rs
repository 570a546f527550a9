//! Zoom levels, and the projection of a node sequence onto what is visible at
//! a level and on which display lane each node stands.

use crate::types::{KindView, Node, NodeType, NodeView};
use vstd::prelude::*;

verus! {

#[derive(Debug, Clone, Copy, PartialEq, Eq, Structural)]
pub enum ZoomLevel {
    Sessions,
    Conversations,
    Details,
    Focus,
}

impl ZoomLevel {
    /// The level's place in the order Sessions < Conversations < Details < Focus.
    pub open spec fn rank(self) -> nat {
        match self {
            ZoomLevel::Sessions => 0,
            ZoomLevel::Conversations => 1,
            ZoomLevel::Details => 2,
            ZoomLevel::Focus => 3,
        }
    }

    /// One level finer, staying at Focus.
    pub fn zoom_in(self) -> (r: Self)
        ensures
            r.rank() == if self.rank() < 3 { self.rank() + 1 } else { 3 },
    {
        match self {
            ZoomLevel::Sessions => ZoomLevel::Conversations,
            ZoomLevel::Conversations => ZoomLevel::Details,
            ZoomLevel::Details => ZoomLevel::Focus,
            ZoomLevel::Focus => ZoomLevel::Focus,
        }
    }

    /// One level coarser, staying at Sessions.
    pub fn zoom_out(self) -> (r: Self)
        ensures
            r.rank() == if self.rank() > 0 { self.rank() - 1 } else { 0 },
    {
        match self {
            ZoomLevel::Sessions => ZoomLevel::Sessions,
            ZoomLevel::Conversations => ZoomLevel::Sessions,
            ZoomLevel::Details => ZoomLevel::Conversations,
            ZoomLevel::Focus => ZoomLevel::Details,
        }
    }
}

pub struct ZoomState {
    pub level: ZoomLevel,
    pub selected_session: usize,
    pub selected_turn: usize,
}

impl ZoomState {
    /// Starts at Details, where tools and agents are visible.
    pub fn new() -> (r: Self)
        ensures
            r.level == ZoomLevel::Details,
            r.selected_session == 0,
            r.selected_turn == 0,
    {
        ZoomState { level: ZoomLevel::Details, selected_session: 0, selected_turn: 0 }
    }

    pub fn zoom_in(&mut self)
        ensures
            final(self).level.rank() == if old(self).level.rank() < 3 {
                old(self).level.rank() + 1
            } else {
                3
            },
            final(self).selected_session == old(self).selected_session,
            final(self).selected_turn == old(self).selected_turn,
    {
        self.level = self.level.zoom_in();
    }

    pub fn zoom_out(&mut self)
        ensures
            final(self).level.rank() == if old(self).level.rank() > 0 {
                old(self).level.rank() - 1
            } else {
                0
            },
            final(self).selected_session == old(self).selected_session,
            final(self).selected_turn == old(self).selected_turn,
    {
        self.level = self.level.zoom_out();
    }
}

pub open spec fn zoom_label(level: ZoomLevel) -> Seq<char> {
    match level {
        ZoomLevel::Sessions => "SESSIONS"@,
        ZoomLevel::Conversations => "CONVERSATIONS"@,
        ZoomLevel::Details => "DETAILS"@,
        ZoomLevel::Focus => "FOCUS"@,
    }
}

pub fn get_zoom_label(level: ZoomLevel) -> (r: &'static str)
    ensures
        r@ == zoom_label(level),
{
    match level {
        ZoomLevel::Sessions => "SESSIONS",
        ZoomLevel::Conversations => "CONVERSATIONS",
        ZoomLevel::Details => "DETAILS",
        ZoomLevel::Focus => "FOCUS",
    }
}

/// The lane of a tool, result, agent or progress node: two below the
/// message lanes, offset by its branch depth (capped at the largest `usize`).
pub open spec fn side_lane(branch_level: u32) -> nat {
    if 2 + branch_level > usize::MAX {
        usize::MAX as nat
    } else {
        (2 + branch_level) as nat
    }
}

/// The display lane of a node at a zoom level.
pub open spec fn lane_of(n: NodeView, level: ZoomLevel) -> nat {
    match level {
        ZoomLevel::Sessions => 0,
        ZoomLevel::Conversations => match n.kind {
            KindView::UserMessage(_) => 0,
            KindView::AssistantMessage(_) => 1,
            _ => 2,
        },
        ZoomLevel::Details | ZoomLevel::Focus => match n.kind {
            KindView::UserMessage(_) => 0,
            KindView::AssistantMessage(_) => 1,
            _ => side_lane(n.branch_level),
        },
    }
}

pub fn get_visual_branch(node: &Node, zoom_level: ZoomLevel) -> (r: usize)
    ensures
        r == lane_of(node@, zoom_level),
{
    match zoom_level {
        ZoomLevel::Conversations => match &node.node_type {
            NodeType::UserMessage(_) => 0,
            NodeType::AssistantMessage(_) => 1,
            _ => 2,
        },
        ZoomLevel::Details | ZoomLevel::Focus => match &node.node_type {
            NodeType::UserMessage(_) => 0,
            NodeType::AssistantMessage(_) => 1,
            _ => (node.branch_level as usize).saturating_add(2),
        },
        ZoomLevel::Sessions => 0,
    }
}

/// The indices of the message nodes among `nodes`, in order.
pub open spec fn message_indices(nodes: Seq<NodeView>) -> Seq<int>
    decreases nodes.len(),
{
    if nodes.len() == 0 {
        Seq::empty()
    } else {
        let rest = message_indices(nodes.drop_last());
        if nodes.last().kind.is_message() {
            rest.push(nodes.len() - 1)
        } else {
            rest
        }
    }
}

/// The indices of `nodes` that are visible at a zoom level, in order.
pub open spec fn visible_indices(nodes: Seq<NodeView>, level: ZoomLevel) -> Seq<int> {
    match level {
        ZoomLevel::Sessions => if nodes.len() == 0 {
            Seq::empty()
        } else {
            seq![0, nodes.len() - 1]
        },
        ZoomLevel::Conversations => message_indices(nodes),
        ZoomLevel::Details | ZoomLevel::Focus => Seq::new(nodes.len(), |i: int| i),
    }
}

pub proof fn lemma_message_indices_valid(nodes: Seq<NodeView>)
    ensures
        forall|k: int|
            0 <= k < message_indices(nodes).len() ==> 0 <= #[trigger] message_indices(nodes)[k]
                < nodes.len() && nodes[message_indices(nodes)[k]].kind.is_message(),
    decreases nodes.len(),
{
    if nodes.len() > 0 {
        lemma_message_indices_valid(nodes.drop_last());
    }
}

/// Every index that any zoom level shows is a valid index into the nodes.
pub proof fn lemma_visible_indices_valid(nodes: Seq<NodeView>, level: ZoomLevel)
    ensures
        forall|k: int|
            0 <= k < visible_indices(nodes, level).len() ==> 0 <= #[trigger] visible_indices(
                nodes,
                level,
            )[k] < nodes.len(),
{
    lemma_message_indices_valid(nodes);
}

pub fn filter_by_zoom(nodes: &[Node], level: ZoomLevel) -> (r: Vec<usize>)
    ensures
        r@.map_values(|i: usize| i as int) == visible_indices(
            nodes@.map_values(|n: Node| n@),
            level,
        ),
{
    let ghost view = nodes@.map_values(|n: Node| n@);
    let mut out: Vec<usize> = Vec::new();
    match level {
        ZoomLevel::Sessions => {
            if nodes.len() > 0 {
                out.push(0);
                out.push(nodes.len() - 1);
            }
        },
        ZoomLevel::Conversations => {
            let mut i: usize = 0;
            while i < nodes.len()
                invariant
                    0 <= i <= nodes@.len(),
                    view == nodes@.map_values(|n: Node| n@),
                    out@.map_values(|k: usize| k as int) == message_indices(view.take(i as int)),
                decreases nodes@.len() - i,
            {
                assert(view.take(i as int + 1).drop_last() =~= view.take(i as int));
                let is_message = match &nodes[i].node_type {
                    NodeType::UserMessage(_) | NodeType::AssistantMessage(_) => true,
                    _ => false,
                };
                if is_message {
                    out.push(i);
                }
                assert(out@.map_values(|k: usize| k as int) =~= message_indices(
                    view.take(i as int + 1),
                ));
                i += 1;
            }
            assert(view.take(nodes@.len() as int) =~= view);
        },
        ZoomLevel::Details | ZoomLevel::Focus => {
            let mut i: usize = 0;
            while i < nodes.len()
                invariant
                    0 <= i <= nodes@.len(),
                    out@.len() == i,
                    forall|k: int| 0 <= k < i ==> out@[k] == k,
                decreases nodes@.len() - i,
            {
                out.push(i);
                i += 1;
            }
        },
    }
    assert(out@.map_values(|i: usize| i as int) =~= visible_indices(view, level));
    out
}

} // verus!
