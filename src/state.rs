//! The navigation state: the graph on view, the cursor as a lane and a
//! position in it, the focused node, the session picker, and the
//! reconciliation of the cursor with a rebuilt graph.

use crate::types::{views, Graph, KindView, Node, NodeType, NodeView};
use crate::zoom::{get_visual_branch, lane_of, ZoomLevel, ZoomState};
use vstd::prelude::*;

verus! {

/// A session of the current project, as the session picker lists it.
/// `timestamp` is in microseconds since the Unix epoch.
#[derive(Debug, Clone)]
pub struct SessionInfo {
    pub id: String,
    pub timestamp: i64,
    pub node_count: usize,
    pub waiting_for_user: bool,
}

pub struct AppState {
    pub graph: Graph,
    /// The display lane the cursor is on.
    pub current_level: usize,
    /// The cursor's position among the nodes of its lane.
    pub cursor_in_level: usize,
    pub zoom: ZoomState,
    /// The node shown expanded, as an index into the graph's nodes.
    pub focused_node: Option<usize>,
    pub blink_state: bool,
    pub session_id: String,
    pub available_sessions: Vec<SessionInfo>,
    pub session_list_open: bool,
    pub session_list_cursor: usize,
    pub timeline_open: bool,
    pub details_open: bool,
}

// ---------------------------------------------------------------------------
// Lanes

/// The indices of the nodes on `lane` at zoom level `z`, in order.
pub open spec fn lane_positions(nodes: Seq<NodeView>, z: ZoomLevel, lane: nat) -> Seq<int>
    decreases nodes.len(),
{
    if nodes.len() == 0 {
        Seq::empty()
    } else {
        let rest = lane_positions(nodes.drop_last(), z, lane);
        if lane_of(nodes.last(), z) == lane {
            rest.push(nodes.len() - 1)
        } else {
            rest
        }
    }
}

/// The highest lane of any node, 0 for none.
pub open spec fn lanes_max(nodes: Seq<NodeView>, z: ZoomLevel) -> nat
    decreases nodes.len(),
{
    if nodes.len() == 0 {
        0
    } else {
        let rest = lanes_max(nodes.drop_last(), z);
        let l = lane_of(nodes.last(), z);
        if l > rest {
            l
        } else {
            rest
        }
    }
}

/// The last lane the cursor may go down to: the highest lane of any node, or
/// 1 when there are no nodes.
pub open spec fn max_lane(nodes: Seq<NodeView>, z: ZoomLevel) -> nat {
    if nodes.len() == 0 {
        1
    } else {
        lanes_max(nodes, z)
    }
}

pub open spec fn time_distance(a: i64, b: i64) -> int {
    if a >= b {
        a - b
    } else {
        b - a
    }
}

/// Whether position `p` of `lane` holds the node nearest in time to `t`, the
/// first such in lane order; 0 when the lane is empty.
pub open spec fn is_nearest(nodes: Seq<NodeView>, z: ZoomLevel, lane: nat, t: i64, p: int) -> bool {
    let pos = lane_positions(nodes, z, lane);
    if pos.len() == 0 {
        p == 0
    } else {
        &&& 0 <= p < pos.len()
        &&& forall|q: int|
            0 <= q < pos.len() ==> time_distance(nodes[#[trigger] pos[q]].timestamp, t)
                >= time_distance(nodes[pos[p]].timestamp, t)
        &&& forall|q: int|
            0 <= q < p ==> time_distance(nodes[#[trigger] pos[q]].timestamp, t) > time_distance(
                nodes[pos[p]].timestamp,
                t,
            )
    }
}

/// Whether the node at `idx` is a tool call still running: no later node is
/// a result that names it as parent.
pub open spec fn is_active(nodes: Seq<NodeView>, idx: int) -> bool {
    &&& 0 <= idx < nodes.len()
    &&& nodes[idx].kind is ToolUse
    &&& !exists|j: int|
        idx < j < nodes.len() && (#[trigger] nodes[j]).kind is ToolResult && nodes[j].parent_id
            == Some(nodes[idx].id)
}

pub proof fn lemma_lane_positions(nodes: Seq<NodeView>, z: ZoomLevel, lane: nat)
    ensures
        lane_positions(nodes, z, lane).len() <= nodes.len(),
        forall|k: int|
            0 <= k < lane_positions(nodes, z, lane).len() ==> 0 <= #[trigger] lane_positions(
                nodes,
                z,
                lane,
            )[k] < nodes.len() && lane_of(nodes[lane_positions(nodes, z, lane)[k]], z) == lane,
    decreases nodes.len(),
{
    if nodes.len() > 0 {
        lemma_lane_positions(nodes.drop_last(), z, lane);
    }
}

proof fn lemma_lane_positions_step(nodes: Seq<NodeView>, z: ZoomLevel, lane: nat, i: int)
    requires
        0 <= i < nodes.len(),
    ensures
        lane_positions(nodes.take(i + 1), z, lane) == if lane_of(nodes[i], z) == lane {
            lane_positions(nodes.take(i), z, lane).push(i)
        } else {
            lane_positions(nodes.take(i), z, lane)
        },
{
    assert(nodes.take(i + 1).drop_last() =~= nodes.take(i));
}

proof fn lemma_lanes_max_step(nodes: Seq<NodeView>, z: ZoomLevel, i: int)
    requires
        0 <= i < nodes.len(),
    ensures
        lanes_max(nodes.take(i + 1), z) == if lane_of(nodes[i], z) > lanes_max(nodes.take(i), z) {
            lane_of(nodes[i], z)
        } else {
            lanes_max(nodes.take(i), z)
        },
{
    assert(nodes.take(i + 1).drop_last() =~= nodes.take(i));
}

/// What a cursor move keeps: everything but the lane, the position in it and
/// the focused node.
pub open spec fn keeps_content(a: &AppState, b: &AppState) -> bool {
    &&& a.graph == b.graph
    &&& a.zoom == b.zoom
    &&& a.blink_state == b.blink_state
    &&& a.session_id == b.session_id
    &&& a.available_sessions == b.available_sessions
    &&& a.session_list_open == b.session_list_open
    &&& a.session_list_cursor == b.session_list_cursor
    &&& a.timeline_open == b.timeline_open
    &&& a.details_open == b.details_open
}

/// The position in `sessions` of the first one with id `id`, 0 if none has.
pub open spec fn session_position(sessions: Seq<SessionInfo>, id: Seq<char>, p: int) -> bool {
    if exists|k: int| 0 <= k < sessions.len() && (#[trigger] sessions[k]).id@ == id {
        &&& 0 <= p < sessions.len()
        &&& sessions[p].id@ == id
        &&& forall|k: int| 0 <= k < p ==> (#[trigger] sessions[k]).id@ != id
    } else {
        p == 0
    }
}

impl AppState {
    pub open spec fn nodes_view(&self) -> Seq<NodeView> {
        views(self.graph.nodes@)
    }

    /// The node indices of the cursor's lane.
    pub open spec fn lane_view(&self) -> Seq<int> {
        lane_positions(self.nodes_view(), self.zoom.level, self.current_level as nat)
    }

    /// The node under the cursor, if the cursor is within its lane.
    pub open spec fn current_index(&self) -> Option<int> {
        if self.cursor_in_level < self.lane_view().len() {
            Some(self.lane_view()[self.cursor_in_level as int])
        } else {
            None
        }
    }

    /// Whether the node at `idx` is a tool call without a result yet.
    pub fn is_node_active(&self, idx: usize) -> (r: bool)
        ensures
            r == is_active(self.nodes_view(), idx as int),
    {
        let ghost nv = self.nodes_view();
        if idx >= self.graph.nodes.len() {
            return false;
        }
        let node = &self.graph.nodes[idx];
        if let NodeType::ToolUse { .. } = &node.node_type {
            let mut j: usize = idx + 1;
            while j < self.graph.nodes.len()
                invariant
                    idx < j <= self.graph.nodes@.len(),
                    nv == self.nodes_view(),
                    node == self.graph.nodes@[idx as int],
                    forall|k: int|
                        idx < k < j ==> !((#[trigger] nv[k]).kind is ToolResult && nv[k].parent_id
                            == Some(nv[idx as int].id)),
                decreases self.graph.nodes@.len() - j,
            {
                let other = &self.graph.nodes[j];
                if let NodeType::ToolResult { .. } = &other.node_type {
                    if let Some(parent_id) = &other.parent_id {
                        if *parent_id == node.id {
                            assert(nv[j as int].kind is ToolResult);
                            return false;
                        }
                    }
                }
                j += 1;
            }
            true
        } else {
            false
        }
    }

    /// The number of nodes on the cursor's lane.
    pub fn get_nodes_in_current_level(&self) -> (r: usize)
        ensures
            r == self.lane_view().len(),
    {
        let ghost nv = self.nodes_view();
        let mut count: usize = 0;
        let mut i: usize = 0;
        while i < self.graph.nodes.len()
            invariant
                i <= self.graph.nodes@.len(),
                nv == self.nodes_view(),
                count == lane_positions(nv.take(i as int), self.zoom.level, self.current_level as nat).len(),
                count <= i,
            decreases self.graph.nodes@.len() - i,
        {
            proof {
                lemma_lane_positions_step(nv, self.zoom.level, self.current_level as nat, i as int);
            }
            if get_visual_branch(&self.graph.nodes[i], self.zoom.level) == self.current_level {
                count += 1;
            }
            i += 1;
        }
        assert(nv.take(i as int) =~= nv);
        count
    }

    /// The index of the node under the cursor, if the cursor is within its lane.
    pub fn get_current_node_index(&self) -> (r: Option<usize>)
        ensures
            r matches Some(idx) ==> self.current_index() == Some(idx as int),
            r is None ==> self.current_index() is None,
    {
        let ghost nv = self.nodes_view();
        let ghost lane = self.current_level as nat;
        let mut count: usize = 0;
        let mut i: usize = 0;
        while i < self.graph.nodes.len()
            invariant
                i <= self.graph.nodes@.len(),
                nv == self.nodes_view(),
                lane == self.current_level,
                count == lane_positions(nv.take(i as int), self.zoom.level, lane).len(),
                count <= self.cursor_in_level,
            decreases self.graph.nodes@.len() - i,
        {
            proof {
                lemma_lane_positions_step(nv, self.zoom.level, lane, i as int);
            }
            if get_visual_branch(&self.graph.nodes[i], self.zoom.level) == self.current_level {
                if count == self.cursor_in_level {
                    proof {
                        lemma_positions_prefix(nv, self.zoom.level, lane, i as int + 1);
                        let long = lane_positions(nv.take(i as int + 1), self.zoom.level, lane);
                        assert(long[count as int] == i);
                        assert(lane_positions(nv, self.zoom.level, lane)[count as int] == i);
                    }
                    return Some(i);
                }
                count += 1;
            }
            i += 1;
        }
        assert(nv.take(i as int) =~= nv);
        None
    }

    /// The node under the cursor.
    pub fn selected_node(&self) -> (r: Option<&Node>)
        ensures
            r matches Some(n) ==> self.current_index() matches Some(idx) && n@ == self.nodes_view()[idx],
            r is None ==> self.current_index() is None,
    {
        proof {
            lemma_lane_positions(self.nodes_view(), self.zoom.level, self.current_level as nat);
        }
        match self.get_current_node_index() {
            Some(idx) => Some(&self.graph.nodes[idx]),
            None => None,
        }
    }

    /// The lowest lane the cursor may move to.
    pub fn get_max_level(&self) -> (r: usize)
        ensures
            r == max_lane(self.nodes_view(), self.zoom.level),
    {
        let ghost nv = self.nodes_view();
        if self.graph.nodes.len() == 0 {
            return 1;
        }
        let mut best: usize = 0;
        let mut i: usize = 0;
        while i < self.graph.nodes.len()
            invariant
                i <= self.graph.nodes@.len(),
                nv == self.nodes_view(),
                best == lanes_max(nv.take(i as int), self.zoom.level),
            decreases self.graph.nodes@.len() - i,
        {
            proof {
                lemma_lanes_max_step(nv, self.zoom.level, i as int);
            }
            let l = get_visual_branch(&self.graph.nodes[i], self.zoom.level);
            if l > best {
                best = l;
            }
            i += 1;
        }
        assert(nv.take(i as int) =~= nv);
        best
    }
}

/// The lane positions of a prefix are a prefix of the lane positions.
proof fn lemma_positions_prefix(nodes: Seq<NodeView>, z: ZoomLevel, lane: nat, i: int)
    requires
        0 <= i <= nodes.len(),
    ensures
        lane_positions(nodes.take(i), z, lane).len() <= lane_positions(nodes, z, lane).len(),
        forall|k: int|
            0 <= k < lane_positions(nodes.take(i), z, lane).len() ==> #[trigger] lane_positions(
                nodes.take(i),
                z,
                lane,
            )[k] == lane_positions(nodes, z, lane)[k],
    decreases nodes.len() - i,
{
    if i < nodes.len() {
        lemma_positions_prefix(nodes, z, lane, i + 1);
        lemma_lane_positions_step(nodes, z, lane, i);
        let short = lane_positions(nodes.take(i), z, lane);
        let long = lane_positions(nodes.take(i + 1), z, lane);
        assert forall|k: int| 0 <= k < short.len() implies #[trigger] short[k] == lane_positions(
            nodes,
            z,
            lane,
        )[k] by {
            assert(short[k] == long[k]);
        }
    } else {
        assert(nodes.take(i) =~= nodes);
    }
}

/// `n - 1`, or 0 for 0.
pub open spec fn pred_or_zero(n: nat) -> nat {
    if n > 0 {
        (n - 1) as nat
    } else {
        0
    }
}

/// From `a` to `b` the cursor goes one lane down, onto the node of that lane
/// nearest in time to the one it was on (position 0 if it was on none); at
/// the last lane nothing moves.
pub open spec fn lane_down_effect(a: &AppState, b: &AppState) -> bool {
    &&& keeps_content(a, b)
    &&& b.focused_node == a.focused_node
    &&& a.current_level < max_lane(a.nodes_view(), a.zoom.level) ==> {
        &&& b.current_level == a.current_level + 1
        &&& match a.current_index() {
            Some(idx) => is_nearest(
                a.nodes_view(),
                a.zoom.level,
                b.current_level as nat,
                a.nodes_view()[idx].timestamp,
                b.cursor_in_level as int,
            ),
            None => b.cursor_in_level == 0,
        }
    }
    &&& a.current_level >= max_lane(a.nodes_view(), a.zoom.level) ==> {
        &&& b.current_level == a.current_level
        &&& b.cursor_in_level == a.cursor_in_level
    }
}

/// From `a` to `b` the cursor goes one lane up, onto the node of that lane
/// nearest in time to the one it was on (position 0 if it was on none); at
/// lane 0 nothing moves.
pub open spec fn lane_up_effect(a: &AppState, b: &AppState) -> bool {
    &&& keeps_content(a, b)
    &&& b.focused_node == a.focused_node
    &&& a.current_level > 0 ==> {
        &&& b.current_level == a.current_level - 1
        &&& match a.current_index() {
            Some(idx) => is_nearest(
                a.nodes_view(),
                a.zoom.level,
                b.current_level as nat,
                a.nodes_view()[idx].timestamp,
                b.cursor_in_level as int,
            ),
            None => b.cursor_in_level == 0,
        }
    }
    &&& a.current_level == 0 ==> {
        &&& b.current_level == 0
        &&& b.cursor_in_level == a.cursor_in_level
    }
}

/// From `a` to `b` the cursor goes one position right in its lane, unless it
/// is on the lane's last node or beyond.
pub open spec fn right_effect(a: &AppState, b: &AppState) -> bool {
    &&& keeps_content(a, b)
    &&& b.focused_node == a.focused_node
    &&& b.current_level == a.current_level
    &&& b.cursor_in_level == if a.cursor_in_level + 1 < a.lane_view().len() {
        a.cursor_in_level + 1
    } else {
        a.cursor_in_level as int
    }
}

/// From `a` to `b` the cursor goes to its lane's first position.
pub open spec fn first_effect(a: &AppState, b: &AppState) -> bool {
    &&& keeps_content(a, b)
    &&& b.focused_node == a.focused_node
    &&& b.current_level == a.current_level
    &&& b.cursor_in_level == 0
}

/// From `a` to `b` the cursor goes to its lane's last position (0 for an
/// empty lane).
pub open spec fn last_effect(a: &AppState, b: &AppState) -> bool {
    &&& keeps_content(a, b)
    &&& b.focused_node == a.focused_node
    &&& b.current_level == a.current_level
    &&& b.cursor_in_level == pred_or_zero(a.lane_view().len())
}

/// From `a` to `b` the cursor goes one position left in its lane, unless it
/// is at 0.
pub open spec fn left_effect(a: &AppState, b: &AppState) -> bool {
    &&& keeps_content(a, b)
    &&& b.focused_node == a.focused_node
    &&& b.current_level == a.current_level
    &&& b.cursor_in_level == if a.cursor_in_level > 0 {
        a.cursor_in_level - 1
    } else {
        0
    }
}

/// From `a` to `b` the node under the cursor gains the focus, or loses it if
/// it had it; with no node under the cursor nothing changes.
pub open spec fn focus_effect(a: &AppState, b: &AppState) -> bool {
    &&& keeps_content(a, b)
    &&& b.current_level == a.current_level
    &&& b.cursor_in_level == a.cursor_in_level
    &&& match a.current_index() {
        Some(idx) => b.focused_node == if a.focused_node == Some(
            idx as usize,
        ) {
            None
        } else {
            Some(idx as usize)
        },
        None => b.focused_node == a.focused_node,
    }
}

/// What the session picker's moves keep: everything but whether it is open
/// and where its cursor is.
pub open spec fn keeps_view(a: &AppState, b: &AppState) -> bool {
    &&& a.graph == b.graph
    &&& a.zoom == b.zoom
    &&& a.current_level == b.current_level
    &&& a.cursor_in_level == b.cursor_in_level
    &&& a.focused_node == b.focused_node
    &&& a.blink_state == b.blink_state
    &&& a.session_id == b.session_id
    &&& a.available_sessions == b.available_sessions
    &&& a.timeline_open == b.timeline_open
    &&& a.details_open == b.details_open
}

/// From `a` to `b` the session picker opens or closes; on opening, its
/// cursor goes to the current session (the first entry if it is not listed).
pub open spec fn session_list_toggle_effect(a: &AppState, b: &AppState) -> bool {
    &&& keeps_view(a, b)
    &&& b.session_list_open == !a.session_list_open
    &&& b.session_list_open ==> session_position(
        a.available_sessions@,
        a.session_id@,
        b.session_list_cursor as int,
    )
    &&& !b.session_list_open ==> b.session_list_cursor == a.session_list_cursor
}

/// From `a` to `b` the picker's cursor goes one entry up, stopping at 0.
pub open spec fn session_list_up_effect(a: &AppState, b: &AppState) -> bool {
    &&& keeps_view(a, b)
    &&& b.session_list_open == a.session_list_open
    &&& b.session_list_cursor == if a.session_list_cursor > 0 {
        a.session_list_cursor - 1
    } else {
        0
    }
}

/// From `a` to `b` the picker's cursor goes one entry down, stopping at the
/// last entry.
pub open spec fn session_list_down_effect(a: &AppState, b: &AppState) -> bool {
    &&& keeps_view(a, b)
    &&& b.session_list_open == a.session_list_open
    &&& b.session_list_cursor == if a.session_list_cursor + 1 < a.available_sessions@.len() {
        a.session_list_cursor + 1
    } else {
        a.session_list_cursor as int
    }
}

fn time_distance_exec(a: i64, b: i64) -> (r: i128)
    ensures
        r == time_distance(a, b),
{
    let d: i128 = a as i128 - b as i128;
    if d < 0 {
        -d
    } else {
        d
    }
}

impl AppState {
    /// Starts on the user lane at Details, on the last user message, with the
    /// timeline shown and the details and session panels hidden.
    pub fn new(graph: Graph, session_id: String, available_sessions: Vec<SessionInfo>) -> (r: Self)
        ensures
            r.graph == graph,
            r.session_id == session_id,
            r.available_sessions == available_sessions,
            r.zoom.level == ZoomLevel::Details,
            r.current_level == 0,
            r.cursor_in_level == pred_or_zero(
                lane_positions(views(graph.nodes@), ZoomLevel::Details, 0).len(),
            ),
            r.focused_node is None,
            !r.blink_state,
            !r.session_list_open,
            r.session_list_cursor == 0,
            r.timeline_open,
            !r.details_open,
    {
        let mut state = AppState {
            graph,
            current_level: 0,
            cursor_in_level: 0,
            zoom: ZoomState::new(),
            focused_node: None,
            blink_state: false,
            session_id,
            available_sessions,
            session_list_open: false,
            session_list_cursor: 0,
            timeline_open: true,
            details_open: false,
        };
        let users = state.get_nodes_in_current_level();
        state.cursor_in_level = users.saturating_sub(1);
        state
    }

    /// The position in the cursor's lane of the node nearest in time to
    /// `target`, the first such in lane order; 0 for an empty lane.
    fn find_nearest_in_level(&self, target: i64) -> (r: usize)
        ensures
            is_nearest(self.nodes_view(), self.zoom.level, self.current_level as nat, target, r as int),
    {
        let ghost nv = self.nodes_view();
        let ghost z = self.zoom.level;
        let ghost lane = self.current_level as nat;
        let mut count: usize = 0;
        let mut best: usize = 0;
        let mut best_dist: i128 = 0;
        let mut i: usize = 0;
        while i < self.graph.nodes.len()
            invariant
                i <= self.graph.nodes@.len(),
                nv == self.nodes_view(),
                z == self.zoom.level,
                lane == self.current_level,
                count == lane_positions(nv.take(i as int), z, lane).len(),
                count <= i,
                count == 0 ==> best == 0,
                count > 0 ==> {
                    let pos = lane_positions(nv.take(i as int), z, lane);
                    &&& best < count
                    &&& best_dist == time_distance(nv[pos[best as int]].timestamp, target)
                    &&& forall|q: int|
                        0 <= q < count ==> time_distance(nv[#[trigger] pos[q]].timestamp, target)
                            >= best_dist
                    &&& forall|q: int|
                        0 <= q < best ==> time_distance(nv[#[trigger] pos[q]].timestamp, target)
                            > best_dist
                },
            decreases self.graph.nodes@.len() - i,
        {
            proof {
                lemma_lane_positions_step(nv, z, lane, i as int);
            }
            let ghost before = lane_positions(nv.take(i as int), z, lane);
            let ghost after = lane_positions(nv.take(i as int + 1), z, lane);
            let node = &self.graph.nodes[i];
            if get_visual_branch(node, self.zoom.level) == self.current_level {
                let d = time_distance_exec(node.timestamp, target);
                assert(after[count as int] == i);
                assert forall|q: int| 0 <= q < count implies after[q] == before[q] by {}
                if count == 0 || d < best_dist {
                    best = count;
                    best_dist = d;
                }
                count += 1;
            }
            i += 1;
        }
        assert(nv.take(i as int) =~= nv);
        best
    }

    /// The time of the node under the cursor.
    fn current_timestamp(&self) -> (r: Option<i64>)
        ensures
            r matches Some(t) ==> self.current_index() matches Some(idx) && t == self.nodes_view()[idx].timestamp,
            r is None ==> self.current_index() is None,
    {
        proof {
            lemma_lane_positions(self.nodes_view(), self.zoom.level, self.current_level as nat);
        }
        match self.get_current_node_index() {
            Some(idx) => Some(self.graph.nodes[idx].timestamp),
            None => None,
        }
    }

    /// Moves the cursor one lane down, onto the node of that lane nearest in
    /// time to the one it was on (position 0 if it was on none); stays at
    /// the last lane.
    pub fn level_down(&mut self)
        ensures
            lane_down_effect(old(self), final(self)),
    {
        let max_level = self.get_max_level();
        if self.current_level < max_level {
            let ts = self.current_timestamp();
            self.current_level = self.current_level + 1;
            self.cursor_in_level = match ts {
                Some(t) => self.find_nearest_in_level(t),
                None => 0,
            };
        }
    }

    /// Moves the cursor one lane up, onto the node of that lane nearest in
    /// time to the one it was on (position 0 if it was on none); stays at
    /// lane 0.
    pub fn level_up(&mut self)
        ensures
            lane_up_effect(old(self), final(self)),
    {
        if self.current_level > 0 {
            let ts = self.current_timestamp();
            self.current_level = self.current_level - 1;
            self.cursor_in_level = match ts {
                Some(t) => self.find_nearest_in_level(t),
                None => 0,
            };
        }
    }

    /// One position right within the lane, stopping at its last node.
    pub fn move_right(&mut self)
        ensures
            right_effect(old(self), final(self)),
    {
        let nodes_in_level = self.get_nodes_in_current_level();
        if self.cursor_in_level < nodes_in_level.saturating_sub(1) {
            self.cursor_in_level = self.cursor_in_level + 1;
        }
    }

    /// To the first node of the lane.
    pub fn move_to_first(&mut self)
        ensures
            first_effect(old(self), final(self)),
    {
        self.cursor_in_level = 0;
    }

    /// To the last node of the lane (position 0 if the lane is empty).
    pub fn move_to_last(&mut self)
        ensures
            last_effect(old(self), final(self)),
    {
        let count = self.get_nodes_in_current_level();
        self.cursor_in_level = count.saturating_sub(1);
    }

    /// Shows another session's graph; the cursor, zoom and panels stay.
    pub fn switch_session(&mut self, graph: Graph, session_id: String)
        ensures
            final(self).graph == graph,
            final(self).session_id == session_id,
            final(self).current_level == old(self).current_level,
            final(self).cursor_in_level == old(self).cursor_in_level,
            final(self).zoom == old(self).zoom,
            final(self).focused_node == old(self).focused_node,
            final(self).available_sessions == old(self).available_sessions,
            final(self).session_list_open == old(self).session_list_open,
            final(self).session_list_cursor == old(self).session_list_cursor,
            final(self).timeline_open == old(self).timeline_open,
            final(self).details_open == old(self).details_open,
    {
        self.graph = graph;
        self.session_id = session_id;
    }

    /// One position left within the lane, stopping at 0.
    pub fn move_left(&mut self)
        ensures
            left_effect(old(self), final(self)),
    {
        if self.cursor_in_level > 0 {
            self.cursor_in_level = self.cursor_in_level - 1;
        }
    }

    /// Focuses the node under the cursor, or clears the focus if that node
    /// already has it; does nothing when the cursor is on no node.
    pub fn toggle_focus(&mut self)
        ensures
            focus_effect(old(self), final(self)),
    {
        if let Some(node_idx) = self.get_current_node_index() {
            let already = match self.focused_node {
                Some(f) => f == node_idx,
                None => false,
            };
            if already {
                self.focused_node = None;
            } else {
                self.focused_node = Some(node_idx);
            }
        }
    }

    /// Opens or closes the session picker; on opening, its cursor goes to the
    /// current session (to the first entry if the session is not listed).
    pub fn toggle_session_list(&mut self)
        ensures
            session_list_toggle_effect(old(self), final(self)),
    {
        self.session_list_open = !self.session_list_open;
        if self.session_list_open {
            let mut pos: usize = 0;
            let mut found = false;
            let mut k: usize = 0;
            while k < self.available_sessions.len() && !found
                invariant
                    k <= self.available_sessions@.len(),
                    self.available_sessions == old(self).available_sessions,
                    self.session_id == old(self).session_id,
                    !found ==> pos == 0,
                    found ==> pos < k && pos < self.available_sessions@.len()
                        && self.available_sessions@[pos as int].id@ == self.session_id@,
                    forall|j: int|
                        0 <= j < k && (!found || j < pos) ==> (#[trigger] self.available_sessions@[j]).id@
                            != self.session_id@,
                decreases self.available_sessions@.len() - k,
            {
                if self.available_sessions[k].id == self.session_id {
                    pos = k;
                    found = true;
                }
                k += 1;
            }
            self.session_list_cursor = pos;
            if found {
                assert(self.available_sessions@[pos as int].id@ == self.session_id@);
            }
        }
    }

    pub fn session_list_up(&mut self)
        ensures
            session_list_up_effect(old(self), final(self)),
    {
        if self.session_list_cursor > 0 {
            self.session_list_cursor = self.session_list_cursor - 1;
        }
    }

    pub fn session_list_down(&mut self)
        ensures
            session_list_down_effect(old(self), final(self)),
    {
        if self.session_list_cursor < self.available_sessions.len().saturating_sub(1) {
            self.session_list_cursor = self.session_list_cursor + 1;
        }
    }

    /// The id of the session under the picker's cursor.
    pub fn get_selected_session(&self) -> (r: Option<String>)
        ensures
            r matches Some(id) ==> self.session_list_cursor < self.available_sessions@.len()
                && id@ == self.available_sessions@[self.session_list_cursor as int].id@,
            r is None ==> self.session_list_cursor >= self.available_sessions@.len(),
    {
        if self.session_list_cursor < self.available_sessions.len() {
            Some(self.available_sessions[self.session_list_cursor].id.clone())
        } else {
            None
        }
    }

    /// Takes a rebuilt graph in place of the current one, unless it has as
    /// many nodes. The lane is kept as far as the new graph has lanes. A
    /// cursor that was on the last or next-to-last node of its lane moves to
    /// the lane's new last node; any other keeps its position, as far as the
    /// lane still reaches. Returns whether the graph was replaced.
    pub fn reconcile(&mut self, graph: Graph) -> (changed: bool)
        ensures
            changed == (graph.nodes@.len() != old(self).graph.nodes@.len()),
            !changed ==> *final(self) == *old(self),
            changed ==> {
                let z = old(self).zoom.level;
                let nv = views(graph.nodes@);
                let old_max = pred_or_zero(old(self).lane_view().len());
                let at_end = old(self).cursor_in_level >= pred_or_zero(old_max);
                let lane = if old(self).current_level <= max_lane(nv, z) {
                    old(self).current_level as nat
                } else {
                    max_lane(nv, z)
                };
                let new_max = pred_or_zero(lane_positions(nv, z, lane).len());
                &&& final(self).graph == graph
                &&& final(self).current_level == lane
                &&& final(self).cursor_in_level == if at_end {
                    new_max as int
                } else if old(self).cursor_in_level <= new_max {
                    old(self).cursor_in_level as int
                } else {
                    new_max as int
                }
                &&& final(self).zoom == old(self).zoom
                &&& final(self).focused_node == old(self).focused_node
                &&& final(self).blink_state == old(self).blink_state
                &&& final(self).session_id == old(self).session_id
                &&& final(self).available_sessions == old(self).available_sessions
                &&& final(self).session_list_open == old(self).session_list_open
                &&& final(self).session_list_cursor == old(self).session_list_cursor
                &&& final(self).timeline_open == old(self).timeline_open
                &&& final(self).details_open == old(self).details_open
            },
    {
        if graph.nodes.len() == self.graph.nodes.len() {
            return false;
        }
        let current_level = self.current_level;
        let current_pos = self.cursor_in_level;
        let old_max = self.get_nodes_in_current_level().saturating_sub(1);
        let is_at_end = current_pos >= old_max.saturating_sub(1);
        self.graph = graph;
        let max_level = self.get_max_level();
        self.current_level = if current_level <= max_level {
            current_level
        } else {
            max_level
        };
        let new_max = self.get_nodes_in_current_level().saturating_sub(1);
        self.cursor_in_level = if is_at_end {
            new_max
        } else if current_pos <= new_max {
            current_pos
        } else {
            new_max
        };
        true
    }
}

// ---------------------------------------------------------------------------
// Commands

/// A user command, as the key bindings produce it.
#[derive(Debug, Clone, Copy, PartialEq, Eq, Structural)]
pub enum Command {
    Quit,
    ToggleSessionList,
    ToggleTimeline,
    ToggleDetails,
    ToggleFocus,
    Left,
    Right,
    Down,
    Up,
    Select,
    First,
    Last,
}

/// What the loop around the state does after a command.
#[derive(Debug, Clone, PartialEq, Eq)]
pub enum Action {
    Continue,
    Quit,
    /// Read the session with this id and hand its graph to `switch_session`.
    LoadSession(String),
}

/// What showing or hiding a panel keeps: everything but the timeline and
/// details flags.
pub open spec fn keeps_all_but_panels(a: &AppState, b: &AppState) -> bool {
    &&& a.graph == b.graph
    &&& a.zoom == b.zoom
    &&& a.current_level == b.current_level
    &&& a.cursor_in_level == b.cursor_in_level
    &&& a.focused_node == b.focused_node
    &&& a.blink_state == b.blink_state
    &&& a.session_id == b.session_id
    &&& a.available_sessions == b.available_sessions
    &&& a.session_list_cursor == b.session_list_cursor
}

/// The id of the session under the picker's cursor, if any.
pub open spec fn selected_session(a: &AppState) -> Option<Seq<char>> {
    if a.session_list_cursor < a.available_sessions@.len() {
        Some(a.available_sessions@[a.session_list_cursor as int].id@)
    } else {
        None
    }
}

impl AppState {
    /// Applies a command. While the session picker is open, up and down move
    /// its cursor and left and right do nothing; selecting closes it, shows
    /// the timeline, and asks for the selected session to be loaded when it
    /// is not the current one.
    pub fn handle(&mut self, cmd: Command) -> (r: Action)
        ensures
            match cmd {
                Command::Quit => r is Quit && *final(self) == *old(self),
                Command::ToggleSessionList => r is Continue && session_list_toggle_effect(
                    old(self),
                    final(self),
                ),
                Command::ToggleTimeline => {
                    &&& r is Continue
                    &&& keeps_all_but_panels(old(self), final(self))
                    &&& final(self).session_list_open == old(self).session_list_open
                    &&& final(self).timeline_open == !old(self).timeline_open
                    &&& final(self).details_open == old(self).details_open
                },
                Command::ToggleDetails => {
                    &&& r is Continue
                    &&& keeps_all_but_panels(old(self), final(self))
                    &&& final(self).session_list_open == old(self).session_list_open
                    &&& final(self).timeline_open == old(self).timeline_open
                    &&& final(self).details_open == !old(self).details_open
                },
                Command::ToggleFocus => r is Continue && focus_effect(old(self), final(self)),
                Command::Left => r is Continue && if old(self).session_list_open {
                    *final(self) == *old(self)
                } else {
                    left_effect(old(self), final(self))
                },
                Command::Right => r is Continue && if old(self).session_list_open {
                    *final(self) == *old(self)
                } else {
                    right_effect(old(self), final(self))
                },
                Command::Down => r is Continue && if old(self).session_list_open {
                    session_list_down_effect(old(self), final(self))
                } else {
                    lane_down_effect(old(self), final(self))
                },
                Command::Up => r is Continue && if old(self).session_list_open {
                    session_list_up_effect(old(self), final(self))
                } else {
                    lane_up_effect(old(self), final(self))
                },
                Command::Select => if old(self).session_list_open {
                    &&& keeps_all_but_panels(old(self), final(self))
                    &&& !final(self).session_list_open
                    &&& final(self).timeline_open
                    &&& final(self).details_open == old(self).details_open
                    &&& match selected_session(old(self)) {
                        Some(id) => if id != old(self).session_id@ {
                            r matches Action::LoadSession(l) && l@ == id
                        } else {
                            r is Continue
                        },
                        None => r is Continue,
                    }
                } else {
                    r is Continue && *final(self) == *old(self)
                },
                Command::First => r is Continue && first_effect(old(self), final(self)),
                Command::Last => r is Continue && last_effect(old(self), final(self)),
            },
    {
        match cmd {
            Command::Quit => Action::Quit,
            Command::ToggleSessionList => {
                self.toggle_session_list();
                Action::Continue
            },
            Command::ToggleTimeline => {
                self.timeline_open = !self.timeline_open;
                Action::Continue
            },
            Command::ToggleDetails => {
                self.details_open = !self.details_open;
                Action::Continue
            },
            Command::ToggleFocus => {
                self.toggle_focus();
                Action::Continue
            },
            Command::Left => {
                if !self.session_list_open {
                    self.move_left();
                }
                Action::Continue
            },
            Command::Right => {
                if !self.session_list_open {
                    self.move_right();
                }
                Action::Continue
            },
            Command::Down => {
                if self.session_list_open {
                    self.session_list_down();
                } else {
                    self.level_down();
                }
                Action::Continue
            },
            Command::Up => {
                if self.session_list_open {
                    self.session_list_up();
                } else {
                    self.level_up();
                }
                Action::Continue
            },
            Command::Select => {
                if self.session_list_open {
                    let mut action = Action::Continue;
                    if let Some(id) = self.get_selected_session() {
                        if !(id == self.session_id) {
                            action = Action::LoadSession(id);
                        }
                    }
                    self.session_list_open = false;
                    self.timeline_open = true;
                    action
                } else {
                    Action::Continue
                }
            },
            Command::First => {
                self.move_to_first();
                Action::Continue
            },
            Command::Last => {
                self.move_to_last();
                Action::Continue
            },
        }
    }
}

} // verus!
