//! Graph construction: adding nodes with their derived edges, the stable
//! sort by time, and the fold of a record sequence into a graph.

use crate::parser::{parse_event_to_node, parse_spec};
use crate::types::{
    at_time, edges_of, edge_bag, edge_of, edges_match_nodes, insert_by_time, is_time_ordered, sorted_by_time,
    views, Edge, EdgeView, Graph, GraphView, Node, NodeView, SessionEvent,
};
use vstd::multiset::Multiset;
use vstd::prelude::*;
use vstd::seq_lib::group_to_multiset_ensures;

verus! {

broadcast use group_to_multiset_ensures;

/// The views of a sequence of edges.
pub open spec fn edge_views(s: Seq<Edge>) -> Seq<EdgeView> {
    s.map_values(|e: Edge| e@)
}

/// The edges that adding `n` appends: one if it has a parent, else none.
pub open spec fn edge_seq(n: NodeView) -> Seq<EdgeView> {
    match edge_of(n) {
        Some(e) => seq![e],
        None => Seq::empty(),
    }
}

// ---------------------------------------------------------------------------
// Lemmas on the stable insertion

/// Inserting `x` just before the run of elements later than it, at the end
/// of `s`, is the insertion step of the stable sort.
proof fn lemma_insert_at(s: Seq<NodeView>, x: NodeView, p: int)
    requires
        0 <= p <= s.len(),
        forall|k: int| p <= k < s.len() ==> s[k].timestamp > x.timestamp,
        p == 0 || s[p - 1].timestamp <= x.timestamp,
    ensures
        insert_by_time(s, x) == s.insert(p, x),
    decreases s.len(),
{
    if s.len() == 0 {
        assert(s.insert(p, x) =~= seq![x]);
    } else if p == s.len() {
        assert(s.insert(p, x) =~= s.push(x));
    } else {
        lemma_insert_at(s.drop_last(), x, p);
        assert(s.drop_last().insert(p, x).push(s.last()) =~= s.insert(p, x));
    }
}

proof fn lemma_insert_bag(s: Seq<NodeView>, x: NodeView)
    ensures
        insert_by_time(s, x).to_multiset() == s.to_multiset().insert(x),
        insert_by_time(s, x).len() == s.len() + 1,
    decreases s.len(),
{
    if s.len() > 0 && s.last().timestamp > x.timestamp {
        lemma_insert_bag(s.drop_last(), x);
        assert(s.drop_last().push(s.last()) =~= s);
        assert(s.to_multiset() =~= s.drop_last().to_multiset().insert(s.last()));
        assert(insert_by_time(s, x).to_multiset() =~= s.to_multiset().insert(x));
    }
}

proof fn lemma_insert_ordered(s: Seq<NodeView>, x: NodeView)
    requires
        is_time_ordered(s),
    ensures
        is_time_ordered(insert_by_time(s, x)),
    decreases s.len(),
{
    if s.len() > 0 && s.last().timestamp > x.timestamp {
        let t = s.drop_last();
        lemma_insert_ordered(t, x);
        lemma_insert_bag(t, x);
        let r = insert_by_time(t, x);
        assert forall|k: int| 0 <= k < r.len() implies r[k].timestamp <= s.last().timestamp by {
            assert(r.to_multiset().count(r[k]) > 0);
            if r[k] != x {
                assert(t.to_multiset().count(r[k]) > 0);
                assert(t.contains(r[k]));
            }
        }
    }
}

proof fn lemma_edge_bag_push(s: Seq<NodeView>, x: NodeView)
    ensures
        edge_bag(s.push(x)) == match edge_of(x) {
            Some(e) => edge_bag(s).insert(e),
            None => edge_bag(s),
        },
{
    assert(s.push(x).drop_last() =~= s);
}

proof fn lemma_insert_edge_bag(s: Seq<NodeView>, x: NodeView)
    ensures
        edge_bag(insert_by_time(s, x)) == edge_bag(s.push(x)),
    decreases s.len(),
{
    if s.len() > 0 && s.last().timestamp > x.timestamp {
        let t = s.drop_last();
        lemma_insert_edge_bag(t, x);
        lemma_edge_bag_push(insert_by_time(t, x), s.last());
        lemma_edge_bag_push(t, x);
        lemma_edge_bag_push(s, x);
        lemma_edge_bag_push(t, s.last());
        assert(t.push(s.last()) =~= s);
        assert(edge_bag(insert_by_time(s, x)) =~= edge_bag(s.push(x)));
    } else if s.len() == 0 {
        assert(seq![x] =~= s.push(x));
    }
}

proof fn lemma_at_time_push(s: Seq<NodeView>, x: NodeView, t: i64)
    ensures
        at_time(s.push(x), t) == if x.timestamp == t {
            at_time(s, t).push(x)
        } else {
            at_time(s, t)
        },
{
    assert(s.push(x).drop_last() =~= s);
}

/// Inserting keeps, for every timestamp, the order of the nodes that carry it.
proof fn lemma_insert_stable(s: Seq<NodeView>, x: NodeView, t: i64)
    ensures
        at_time(insert_by_time(s, x), t) == at_time(s.push(x), t),
    decreases s.len(),
{
    if s.len() > 0 && s.last().timestamp > x.timestamp {
        let d = s.drop_last();
        lemma_insert_stable(d, x, t);
        lemma_at_time_push(insert_by_time(d, x), s.last(), t);
        lemma_at_time_push(d, x, t);
        lemma_at_time_push(d, s.last(), t);
        lemma_at_time_push(s, x, t);
        assert(d.push(s.last()) =~= s);
    } else if s.len() == 0 {
        assert(seq![x] =~= s.push(x));
    }
}

/// The stable sort by time orders the nodes, keeps every node and every
/// derived edge, and keeps the order among nodes of equal timestamp.
pub proof fn lemma_sorted_by_time(s: Seq<NodeView>)
    ensures
        is_time_ordered(sorted_by_time(s)),
        sorted_by_time(s).to_multiset() == s.to_multiset(),
        sorted_by_time(s).len() == s.len(),
        edge_bag(sorted_by_time(s)) == edge_bag(s),
        forall|t: i64| #[trigger] at_time(sorted_by_time(s), t) == at_time(s, t),
    decreases s.len(),
{
    if s.len() > 0 {
        let t = s.drop_last();
        assert forall|ts: i64| #[trigger] at_time(sorted_by_time(s), ts) == at_time(s, ts) by {
            lemma_sorted_by_time(t);
            lemma_insert_stable(sorted_by_time(t), s.last(), ts);
            lemma_at_time_push(sorted_by_time(t), s.last(), ts);
            lemma_at_time_push(t, s.last(), ts);
            assert(t.push(s.last()) =~= s);
        }
        lemma_sorted_by_time(t);
        lemma_insert_ordered(sorted_by_time(t), s.last());
        lemma_insert_bag(sorted_by_time(t), s.last());
        lemma_insert_edge_bag(sorted_by_time(t), s.last());
        lemma_edge_bag_push(sorted_by_time(t), s.last());
        lemma_edge_bag_push(t, s.last());
        assert(t.push(s.last()) =~= s);
        assert(s.to_multiset() =~= t.to_multiset().insert(s.last()));
    }
}

// ---------------------------------------------------------------------------
// Graph

impl Default for Graph {
    fn default() -> (r: Graph)
        ensures
            r.nodes@.len() == 0,
            r.edges@.len() == 0,
            r.active_branches@.len() == 0,
    {
        Graph { nodes: Vec::new(), edges: Vec::new(), active_branches: Vec::new() }
    }
}

impl Graph {
    /// Appends `node` and, if it has a parent, the edge from that parent to it.
    pub fn add_node(&mut self, node: Node)
        ensures
            final(self).nodes@ == old(self).nodes@.push(node),
            edge_views(final(self).edges@) == edge_views(old(self).edges@) + edge_seq(node@),
            final(self).active_branches == old(self).active_branches,
            edges_match_nodes(old(self)@) ==> edges_match_nodes(final(self)@),
    {
        let ghost old_edges = edge_views(self.edges@);
        let ghost old_nodes = views(self.nodes@);
        if let Some(parent_id) = &node.parent_id {
            let edge = Edge {
                from: parent_id.clone(),
                to: node.id.clone(),
                is_branch: node.branch_level > 0,
            };
            self.edges.push(edge);
        }
        assert(edge_views(self.edges@) =~= old_edges + edge_seq(node@));
        let ghost nv = node@;
        self.nodes.push(node);
        proof {
            assert(views(self.nodes@) =~= old_nodes.push(nv));
            lemma_edge_bag_push(old_nodes, nv);
            if let Some(e) = edge_of(nv) {
                assert(old_edges + edge_seq(nv) =~= old_edges.push(e));
            } else {
                assert(old_edges + edge_seq(nv) =~= old_edges);
            }
            assert(self@.nodes == views(self.nodes@));
            assert(self@.edges == edge_views(self.edges@));
        }
    }

    /// Stable sort of the nodes by timestamp; equal timestamps keep their order.
    pub fn sort_by_time(&mut self)
        ensures
            views(final(self).nodes@) == sorted_by_time(views(old(self).nodes@)),
            final(self).edges == old(self).edges,
            final(self).active_branches == old(self).active_branches,
            edges_match_nodes(old(self)@) ==> edges_match_nodes(final(self)@),
    {
        let ghost orig = views(self.nodes@);
        let n = self.nodes.len();
        let mut i: usize = 0;
        while i < n
            invariant
                n == self.nodes@.len(),
                n == orig.len(),
                i <= n,
                views(self.nodes@).take(i as int) == sorted_by_time(orig.take(i as int)),
                views(self.nodes@).skip(i as int) == orig.skip(i as int),
                self.edges == old(self).edges,
                self.active_branches == old(self).active_branches,
            decreases n - i,
        {
            let ghost prefix = views(self.nodes@).take(i as int);
            let ghost rest = views(self.nodes@).skip(i as int + 1);
            assert(rest =~= orig.skip(i as int + 1)) by {
                assert(views(self.nodes@).skip(i as int).skip(1) =~= rest);
                assert(orig.skip(i as int).skip(1) =~= orig.skip(i as int + 1));
            }
            assert(views(self.nodes@)[i as int] == orig[i as int]) by {
                assert(views(self.nodes@).skip(i as int)[0] == orig.skip(i as int)[0]);
            }
            let x = self.nodes.remove(i);
            assert(views(self.nodes@) =~= prefix + rest);
            let mut p: usize = i;
            while p > 0 && self.nodes[p - 1].timestamp > x.timestamp
                invariant
                    p <= i,
                    i < n,
                    self.nodes@.len() == n - 1,
                    views(self.nodes@) == prefix + rest,
                    prefix.len() == i,
                    forall|k: int| p <= k < i ==> prefix[k].timestamp > x.timestamp,
                decreases p,
            {
                assert(views(self.nodes@)[p - 1] == prefix[p - 1]);
                p -= 1;
            }
            proof {
                lemma_insert_at(prefix, x@, p as int);
                assert(orig.take(i as int + 1).drop_last() =~= orig.take(i as int));
            }
            self.nodes.insert(p, x);
            assert(views(self.nodes@) =~= prefix.insert(p as int, x@) + rest);
            assert(views(self.nodes@).take(i as int + 1) =~= prefix.insert(p as int, x@));
            assert(views(self.nodes@).skip(i as int + 1) =~= rest);
            i += 1;
        }
        assert(views(self.nodes@) =~= views(self.nodes@).take(n as int));
        assert(orig =~= orig.take(n as int));
        proof {
            lemma_sorted_by_time(orig);
        }
    }
}

// ---------------------------------------------------------------------------
// Records in time order

/// `s` with `x` inserted after the last record whose timestamp is not
/// greater than that of `x`.
pub open spec fn insert_event_by_time(s: Seq<SessionEvent>, x: SessionEvent) -> Seq<SessionEvent>
    decreases s.len(),
{
    if s.len() == 0 {
        seq![x]
    } else if s.last().timestamp <= x.timestamp {
        s.push(x)
    } else {
        insert_event_by_time(s.drop_last(), x).push(s.last())
    }
}

/// The stable sort of records by timestamp: records with equal timestamps
/// keep the order they were read in.
pub open spec fn events_sorted_by_time(s: Seq<SessionEvent>) -> Seq<SessionEvent>
    decreases s.len(),
{
    if s.len() == 0 {
        Seq::empty()
    } else {
        insert_event_by_time(events_sorted_by_time(s.drop_last()), s.last())
    }
}

proof fn lemma_insert_event_at(s: Seq<SessionEvent>, x: SessionEvent, p: int)
    requires
        0 <= p <= s.len(),
        forall|k: int| p <= k < s.len() ==> s[k].timestamp > x.timestamp,
        p == 0 || s[p - 1].timestamp <= x.timestamp,
    ensures
        insert_event_by_time(s, x) == s.insert(p, x),
    decreases s.len(),
{
    if s.len() == 0 {
        assert(s.insert(p, x) =~= seq![x]);
    } else if p == s.len() {
        assert(s.insert(p, x) =~= s.push(x));
    } else {
        lemma_insert_event_at(s.drop_last(), x, p);
        assert(s.drop_last().insert(p, x).push(s.last()) =~= s.insert(p, x));
    }
}

/// Stable sort of records by timestamp, as records merged from several files
/// are ordered before the graph is built.
pub fn sort_events_by_time(events: &mut Vec<SessionEvent>)
    ensures
        final(events)@ == events_sorted_by_time(old(events)@),
{
    let ghost orig = events@;
    let n = events.len();
    let mut i: usize = 0;
    while i < n
        invariant
            n == events@.len(),
            n == orig.len(),
            i <= n,
            events@.take(i as int) == events_sorted_by_time(orig.take(i as int)),
            events@.skip(i as int) == orig.skip(i as int),
        decreases n - i,
    {
        let ghost prefix = events@.take(i as int);
        let ghost rest = events@.skip(i as int + 1);
        assert(rest =~= orig.skip(i as int + 1)) by {
            assert(events@.skip(i as int).skip(1) =~= rest);
            assert(orig.skip(i as int).skip(1) =~= orig.skip(i as int + 1));
        }
        assert(events@[i as int] == orig[i as int]) by {
            assert(events@.skip(i as int)[0] == orig.skip(i as int)[0]);
        }
        let x = events.remove(i);
        assert(events@ =~= prefix + rest);
        let mut p: usize = i;
        while p > 0 && events[p - 1].timestamp > x.timestamp
            invariant
                p <= i,
                i < n,
                events@.len() == n - 1,
                events@ == prefix + rest,
                prefix.len() == i,
                forall|k: int| p <= k < i ==> prefix[k].timestamp > x.timestamp,
            decreases p,
        {
            assert(events@[p - 1] == prefix[p - 1]);
            p -= 1;
        }
        proof {
            lemma_insert_event_at(prefix, x, p as int);
            assert(orig.take(i as int + 1).drop_last() =~= orig.take(i as int));
        }
        events.insert(p, x);
        assert(events@ =~= prefix.insert(p as int, x) + rest);
        assert(events@.take(i as int + 1) =~= prefix.insert(p as int, x));
        assert(events@.skip(i as int + 1) =~= rest);
        i += 1;
    }
    assert(events@ =~= events@.take(n as int));
    assert(orig =~= orig.take(n as int));
}

// ---------------------------------------------------------------------------
// Building

/// The nodes of a record sequence, record by record in input order.
pub open spec fn parse_all(events: Seq<SessionEvent>) -> Seq<NodeView>
    decreases events.len(),
{
    if events.len() == 0 {
        Seq::empty()
    } else {
        parse_all(events.drop_last()) + parse_spec(events.last())
    }
}

/// The graph of a record sequence: its nodes stably sorted by time, and the
/// edges they derive in the order the nodes were added.
pub open spec fn build_spec(events: Seq<SessionEvent>) -> GraphView {
    GraphView {
        nodes: sorted_by_time(parse_all(events)),
        edges: edges_of(parse_all(events)),
    }
}

proof fn lemma_edges_of_append(s: Seq<NodeView>, t: Seq<NodeView>)
    ensures
        edges_of(s + t) == edges_of(s) + edges_of(t),
    decreases t.len(),
{
    if t.len() == 0 {
        assert(s + t =~= s);
        assert(edges_of(s) + edges_of(t) =~= edges_of(s));
    } else {
        lemma_edges_of_append(s, t.drop_last());
        assert((s + t).drop_last() =~= s + t.drop_last());
        assert(edges_of(s + t) =~= edges_of(s) + edges_of(t));
    }
}

/// Appends the nodes of `events` to `graph`, record by record.
fn add_events(graph: &mut Graph, events: Vec<SessionEvent>)
    ensures
        views(final(graph).nodes@) == views(old(graph).nodes@) + parse_all(events@),
        edge_views(final(graph).edges@) == edge_views(old(graph).edges@) + edges_of(
            parse_all(events@),
        ),
        final(graph).active_branches == old(graph).active_branches,
{
    let ghost evs = events@;
    let ghost nodes0 = views(graph.nodes@);
    let ghost edges0 = edge_views(graph.edges@);
    for event in iter: events
        invariant
            iter.seq() == evs,
            views(graph.nodes@) == nodes0 + parse_all(evs.take(iter.index())),
            edge_views(graph.edges@) == edges0 + edges_of(parse_all(evs.take(iter.index()))),
            graph.active_branches == old(graph).active_branches,
    {
        let ghost before = parse_all(evs.take(iter.index()));
        let ghost produced = parse_spec(event);
        assert(evs.take(iter.index() + 1).drop_last() =~= evs.take(iter.index()));
        let nodes = parse_event_to_node(event);
        let ghost base_nodes = views(graph.nodes@);
        let ghost base_edges = edge_views(graph.edges@);
        for node in it: nodes
            invariant
                it.seq() == nodes@,
                views(nodes@) == produced,
                views(graph.nodes@) == base_nodes + produced.take(it.index()),
                edge_views(graph.edges@) == base_edges + edges_of(produced.take(it.index())),
                graph.active_branches == old(graph).active_branches,
        {
            assert(produced.take(it.index() + 1).drop_last() =~= produced.take(it.index()));
            assert(produced[it.index()] == node@);
            let ghost gn = graph.nodes@;
            let ghost nv = node@;
            graph.add_node(node);
            assert(views(graph.nodes@) =~= views(gn).push(nv));
            assert(produced.take(it.index() + 1) =~= produced.take(it.index()).push(nv));
            assert(views(graph.nodes@) =~= base_nodes + produced.take(it.index() + 1));
            assert(edge_views(graph.edges@) =~= base_edges + edges_of(
                produced.take(it.index() + 1),
            ));
        }
        proof {
            assert(produced.take(produced.len() as int) =~= produced);
            lemma_edges_of_append(before, produced);
        }
        assert(views(graph.nodes@) =~= nodes0 + parse_all(evs.take(iter.index() + 1)));
    }
    assert(evs.take(evs.len() as int) =~= evs);
}

/// Builds the graph of a record sequence (see `build_spec`).
pub fn build_graph(events: Vec<SessionEvent>) -> (r: Graph)
    ensures
        r@ == build_spec(events@),
        edges_match_nodes(r@),
{
    let mut graph = Graph::default();
    add_events(&mut graph, events);
    graph.sort_by_time();
    assert(views(graph.nodes@) =~= graph@.nodes);
    assert(edge_views(graph.edges@) =~= graph@.edges);
    assert(graph@ =~= build_spec(events@));
    proof {
        lemma_sorted_by_time(parse_all(events@));
        lemma_edges_of_bag(parse_all(events@));
    }
    graph
}

pub struct GraphBuilder {
    graph: Graph,
}

impl View for GraphBuilder {
    type V = GraphView;

    closed spec fn view(&self) -> GraphView {
        self.graph@
    }
}

impl GraphBuilder {
    pub fn new() -> (r: Self)
        ensures
            r@.nodes.len() == 0,
            r@.edges.len() == 0,
            edges_match_nodes(r@),
    {
        let graph = Graph::default();
        assert(graph@.nodes =~= Seq::empty());
        assert(graph@.edges =~= Seq::empty());
        assert(graph@.edges.to_multiset() =~= Multiset::empty()) by {
            assert forall|e: EdgeView| graph@.edges.to_multiset().count(e) == 0 by {
                assert(!graph@.edges.contains(e));
            }
        }
        GraphBuilder { graph }
    }

    /// Builds the graph of `events` afresh, in place of any graph built
    /// before (see `build_spec`).
    pub fn build_from_events(&mut self, events: Vec<SessionEvent>) -> (r: &Graph)
        ensures
            r@ == final(self)@,
            final(self)@ == build_spec(events@),
            edges_match_nodes(final(self)@),
    {
        self.graph = build_graph(events);
        &self.graph
    }

    pub fn graph(&self) -> (r: &Graph)
        ensures
            r@ == self@,
    {
        &self.graph
    }
}

// ---------------------------------------------------------------------------
// Laws of the built graph

/// Rebuilding from an unchanged record sequence gives the same nodes and
/// edges, in the same order: the build depends on the records alone.
pub proof fn lemma_rebuild_identical(first: Seq<SessionEvent>, second: Seq<SessionEvent>)
    requires
        first == second,
    ensures
        build_spec(first).nodes == build_spec(second).nodes,
        build_spec(first).edges == build_spec(second).edges,
{
}

/// The nodes of a built graph are in time order, and nodes of equal time
/// keep the order in which the records produced them.
pub proof fn lemma_built_graph_ordered(events: Seq<SessionEvent>)
    ensures
        forall|i: int|
            0 <= i < build_spec(events).nodes.len() - 1 ==> (#[trigger] build_spec(
                events,
            ).nodes[i]).timestamp <= build_spec(events).nodes[i + 1].timestamp,
        forall|t: i64| #[trigger] at_time(build_spec(events).nodes, t) == at_time(parse_all(events), t),
{
    lemma_sorted_by_time(parse_all(events));
}

proof fn lemma_edges_of_bag(s: Seq<NodeView>)
    ensures
        edges_of(s).to_multiset() == edge_bag(s),
    decreases s.len(),
{
    if s.len() > 0 {
        lemma_edges_of_bag(s.drop_last());
    }
}

proof fn lemma_edge_bag_source(s: Seq<NodeView>, e: EdgeView)
    requires
        edge_bag(s).count(e) > 0,
    ensures
        exists|j: int| 0 <= j < s.len() && edge_of(#[trigger] s[j]) == Some(e),
    decreases s.len(),
{
    let t = s.drop_last();
    if edge_of(s.last()) == Some(e) {
        assert(edge_of(s[s.len() - 1]) == Some(e));
    } else {
        lemma_edge_bag_source(t, e);
        let j = choose|j: int| 0 <= j < t.len() && edge_of(#[trigger] t[j]) == Some(e);
        assert(s[j] == t[j]);
    }
}

proof fn lemma_edge_bag_single(s: Seq<NodeView>, i: int, e: EdgeView)
    requires
        0 <= i < s.len(),
        edge_of(s[i]) == Some(e),
        forall|j: int| 0 <= j < s.len() && j != i ==> edge_of(#[trigger] s[j]) != Some(e),
    ensures
        edge_bag(s).count(e) == 1,
    decreases s.len(),
{
    let t = s.drop_last();
    if i == s.len() - 1 {
        if edge_bag(t).count(e) > 0 {
            lemma_edge_bag_source(t, e);
            let j = choose|j: int| 0 <= j < t.len() && edge_of(#[trigger] t[j]) == Some(e);
            assert(s[j] == t[j]);
        }
    } else {
        assert forall|j: int| 0 <= j < t.len() && j != i implies edge_of(#[trigger] t[j]) != Some(
            e,
        ) by {
            assert(s[j] == t[j]);
        }
        lemma_edge_bag_single(t, i, e);
        assert(edge_of(s[s.len() - 1]) != Some(e));
    }
}

/// The edges of a built graph are exactly those its nodes derive. For a node
/// with a parent, the edge from that parent to it, marked as a branch iff the
/// node is on a side-chain, is among them; when no other node has the same id
/// and parent, it is the one edge between the two.
pub proof fn lemma_edge_derivation(events: Seq<SessionEvent>, i: int)
    requires
        0 <= i < build_spec(events).nodes.len(),
        build_spec(events).nodes[i].parent_id is Some,
    ensures
        edges_match_nodes(build_spec(events)),
        ({
            let g = build_spec(events);
            let n = g.nodes[i];
            let e = EdgeView { from: n.parent_id.unwrap(), to: n.id, is_branch: n.branch_level > 0 };
            &&& g.edges.contains(e)
            &&& (forall|j: int|
                0 <= j < g.nodes.len() && j != i ==> !(#[trigger] g.nodes[j].id == n.id
                    && g.nodes[j].parent_id == n.parent_id)) ==> {
                &&& g.edges.to_multiset().count(e) == 1
                &&& forall|k: int|
                    0 <= k < g.edges.len() && (#[trigger] g.edges[k]).from == e.from
                        && g.edges[k].to == e.to ==> g.edges[k] == e
            }
        }),
{
    let all = parse_all(events);
    let g = build_spec(events);
    lemma_sorted_by_time(all);
    lemma_edges_of_bag(all);
    let n = g.nodes[i];
    let e = EdgeView { from: n.parent_id.unwrap(), to: n.id, is_branch: n.branch_level > 0 };
    lemma_edge_bag_member(g.nodes, i, e);
    assert(g.edges.to_multiset().count(e) > 0);
    if forall|j: int|
        0 <= j < g.nodes.len() && j != i ==> !(#[trigger] g.nodes[j].id == n.id
            && g.nodes[j].parent_id == n.parent_id) {
        assert forall|j: int| 0 <= j < g.nodes.len() && j != i implies edge_of(
            #[trigger] g.nodes[j],
        ) != Some(e) by {
            assert(!(g.nodes[j].id == n.id && g.nodes[j].parent_id == n.parent_id));
        }
        lemma_edge_bag_single(g.nodes, i, e);
        assert forall|k: int|
            0 <= k < g.edges.len() && (#[trigger] g.edges[k]).from == e.from && g.edges[k].to
                == e.to implies g.edges[k] == e by {
            let f = g.edges[k];
            assert(g.edges.to_multiset().count(f) > 0);
            lemma_edge_bag_source(g.nodes, f);
            let j = choose|j: int| 0 <= j < g.nodes.len() && edge_of(#[trigger] g.nodes[j]) == Some(f);
            if j != i {
                assert(g.nodes[j].id == n.id && g.nodes[j].parent_id == n.parent_id);
            }
        }
    }
}

proof fn lemma_edge_bag_member(s: Seq<NodeView>, i: int, e: EdgeView)
    requires
        0 <= i < s.len(),
        edge_of(s[i]) == Some(e),
    ensures
        edge_bag(s).count(e) > 0,
    decreases s.len(),
{
    if i < s.len() - 1 {
        lemma_edge_bag_member(s.drop_last(), i, e);
    }
}

/// No two nodes of `s` share an id.
pub open spec fn ids_distinct(s: Seq<NodeView>) -> bool {
    forall|i: int, j: int| #![trigger s[i], s[j]] 0 <= i < j < s.len() ==> s[i].id != s[j].id
}

/// The number of nodes of `s` that have a parent.
pub open spec fn parent_count(s: Seq<NodeView>) -> nat
    decreases s.len(),
{
    if s.len() == 0 {
        0
    } else if s.last().parent_id is Some {
        parent_count(s.drop_last()) + 1
    } else {
        parent_count(s.drop_last())
    }
}

proof fn lemma_insert_member(s: Seq<NodeView>, x: NodeView, k: int)
    requires
        0 <= k < insert_by_time(s, x).len(),
    ensures
        insert_by_time(s, x)[k] == x || exists|j: int| 0 <= j < s.len() && s[j] == insert_by_time(s, x)[k],
{
    lemma_insert_bag(s, x);
    let r = insert_by_time(s, x);
    assert(r.contains(r[k]));
    assert(r.to_multiset().count(r[k]) > 0);
    if r[k] != x {
        assert(s.to_multiset().count(r[k]) > 0);
        assert(s.contains(r[k]));
    }
}

proof fn lemma_insert_distinct(s: Seq<NodeView>, x: NodeView)
    requires
        ids_distinct(s),
        forall|k: int| 0 <= k < s.len() ==> (#[trigger] s[k]).id != x.id,
    ensures
        ids_distinct(insert_by_time(s, x)),
    decreases s.len(),
{
    if s.len() > 0 && s.last().timestamp > x.timestamp {
        let d = s.drop_last();
        let l = s.last();
        assert forall|i: int, j: int| #![trigger d[i], d[j]] 0 <= i < j < d.len() implies d[i].id
            != d[j].id by {
            assert(d[i] == s[i] && d[j] == s[j]);
        }
        assert forall|k: int| 0 <= k < d.len() implies (#[trigger] d[k]).id != x.id by {
            assert(d[k] == s[k]);
        }
        lemma_insert_distinct(d, x);
        let r = insert_by_time(d, x);
        lemma_insert_bag(d, x);
        assert forall|k: int| 0 <= k < r.len() implies (#[trigger] r[k]).id != l.id by {
            lemma_insert_member(d, x, k);
            if r[k] != x {
                let j = choose|j: int| 0 <= j < d.len() && d[j] == r[k];
                assert(s[j] == d[j]);
                assert(s[j].id != s[s.len() - 1].id);
            }
        }
        let full = r.push(l);
        assert forall|i: int, j: int| #![trigger full[i], full[j]] 0 <= i < j < full.len() implies full[i].id
            != full[j].id by {
            if j == full.len() - 1 {
                assert(full[i] == r[i]);
            } else {
                assert(full[i] == r[i] && full[j] == r[j]);
            }
        }
    } else if s.len() > 0 {
        let full = s.push(x);
        assert forall|i: int, j: int| #![trigger full[i], full[j]] 0 <= i < j < full.len() implies full[i].id
            != full[j].id by {
            if j == s.len() {
                assert(full[i] == s[i]);
            } else {
                assert(full[i] == s[i] && full[j] == s[j]);
            }
        }
    }
}

proof fn lemma_sorted_distinct(s: Seq<NodeView>)
    requires
        ids_distinct(s),
    ensures
        ids_distinct(sorted_by_time(s)),
    decreases s.len(),
{
    if s.len() > 0 {
        let d = s.drop_last();
        let l = s.last();
        assert forall|i: int, j: int| #![trigger d[i], d[j]] 0 <= i < j < d.len() implies d[i].id
            != d[j].id by {
            assert(d[i] == s[i] && d[j] == s[j]);
        }
        lemma_sorted_distinct(d);
        lemma_sorted_by_time(d);
        let r = sorted_by_time(d);
        assert forall|k: int| 0 <= k < r.len() implies (#[trigger] r[k]).id != l.id by {
            assert(r.contains(r[k]));
            assert(d.to_multiset().count(r[k]) > 0);
            assert(d.contains(r[k]));
            let j = choose|j: int| 0 <= j < d.len() && d[j] == r[k];
            assert(s[j] == d[j]);
            assert(s[j].id != s[s.len() - 1].id);
        }
        lemma_insert_distinct(r, l);
    }
}

proof fn lemma_edge_bag_len(s: Seq<NodeView>)
    ensures
        edge_bag(s).len() == parent_count(s),
    decreases s.len(),
{
    if s.len() > 0 {
        lemma_edge_bag_len(s.drop_last());
    }
}

proof fn lemma_count_two(s: Seq<EdgeView>, k1: int, k2: int)
    requires
        0 <= k1 < s.len(),
        0 <= k2 < s.len(),
        k1 != k2,
        s[k1] == s[k2],
    ensures
        s.to_multiset().count(s[k1]) >= 2,
{
    let r = s.remove(k1);
    let k = if k2 < k1 { k2 } else { k2 - 1 };
    assert(r[k] == s[k2]);
    assert(r.contains(s[k1]));
    assert(r.to_multiset().count(s[k1]) > 0);
    assert(r.to_multiset() == s.to_multiset().remove(s[k1]));
    assert(s.to_multiset().remove(s[k1]).count(s[k1]) > 0);
}

/// When the records yield nodes with pairwise distinct ids, a built graph has
/// one edge per node with a parent, and for each such node exactly one edge
/// runs from its parent to it, marked as a branch iff the node is on a
/// side-chain.
pub proof fn lemma_edge_derivation_distinct(events: Seq<SessionEvent>, i: int)
    requires
        ids_distinct(parse_all(events)),
        0 <= i < build_spec(events).nodes.len(),
        build_spec(events).nodes[i].parent_id is Some,
    ensures
        build_spec(events).edges.len() == parent_count(build_spec(events).nodes),
        ({
            let g = build_spec(events);
            let n = g.nodes[i];
            let e = EdgeView { from: n.parent_id.unwrap(), to: n.id, is_branch: n.branch_level > 0 };
            &&& exists|k: int| 0 <= k < g.edges.len() && g.edges[k] == e
            &&& forall|k1: int, k2: int|
                #![trigger g.edges[k1], g.edges[k2]]
                0 <= k1 < g.edges.len() && 0 <= k2 < g.edges.len() && g.edges[k1].from == e.from
                    && g.edges[k1].to == e.to && g.edges[k2].from == e.from && g.edges[k2].to
                    == e.to ==> k1 == k2
        }),
{
    let all = parse_all(events);
    let g = build_spec(events);
    let n = g.nodes[i];
    let e = EdgeView { from: n.parent_id.unwrap(), to: n.id, is_branch: n.branch_level > 0 };
    lemma_sorted_by_time(all);
    lemma_sorted_distinct(all);
    lemma_edges_of_bag(all);
    lemma_edge_bag_len(g.nodes);
    assert(g.edges.to_multiset().len() == g.edges.len());
    assert forall|j: int| 0 <= j < g.nodes.len() && j != i implies !(#[trigger] g.nodes[j].id == n.id
        && g.nodes[j].parent_id == n.parent_id) by {
        if j < i {
            assert(g.nodes[j].id != g.nodes[i].id);
        } else {
            assert(g.nodes[i].id != g.nodes[j].id);
        }
    }
    lemma_edge_derivation(events, i);
    assert(g.edges.contains(e));
    assert forall|k1: int, k2: int|
        #![trigger g.edges[k1], g.edges[k2]]
        0 <= k1 < g.edges.len() && 0 <= k2 < g.edges.len() && g.edges[k1].from == e.from
            && g.edges[k1].to == e.to && g.edges[k2].from == e.from && g.edges[k2].to == e.to
        implies k1 == k2 by {
        assert(g.edges[k1] == e);
        assert(g.edges[k2] == e);
        if k1 != k2 {
            lemma_count_two(g.edges, k1, k2);
        }
    }
}

} // verus!
