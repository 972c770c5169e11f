//! The network as a graph of nodes and links, used to find a shared EPR node.
use vstd::prelude::*;

use std::collections::HashMap;

use crate::error::{GraphError, LinkError, NodeError};
use crate::node::{kind_of_text, Link, Node, NodeKind};

verus! {

broadcast use vstd::std_specs::hash::group_hash_axioms;

/// A node as the graph sees it.
#[derive(Debug, Clone, Copy, PartialEq, Eq, Hash, PartialOrd, Ord, Structural)]
pub enum GraphNode {
    ClientNode(i32),
    EprNode(i32),
}

/// The graph node of a node of the given kind. Only EPR nodes can be shared sources,
/// so an eavesdropping node counts as a client here.
pub open spec fn graph_node_of(id: i32, kind: NodeKind) -> GraphNode {
    match kind {
        NodeKind::EprNode => GraphNode::EprNode(id),
        _ => GraphNode::ClientNode(id),
    }
}

pub open spec fn id_of(g: GraphNode) -> i32 {
    match g {
        GraphNode::ClientNode(id) => id,
        GraphNode::EprNode(id) => id,
    }
}

/// The first node whose type names no kind.
pub open spec fn first_bad_kind(ns: Seq<Node>) -> Option<Node>
    decreases ns.len(),
{
    if ns.len() == 0 {
        None
    } else {
        match first_bad_kind(ns.drop_last()) {
            Some(n) => Some(n),
            None => if kind_of_text(ns.last().node_type@) is None {
                Some(ns.last())
            } else {
                None
            },
        }
    }
}

/// The graph node of each node id; a later node with the same id replaces an earlier one.
pub open spec fn node_table(ns: Seq<Node>) -> Map<i32, GraphNode>
    decreases ns.len(),
{
    if ns.len() == 0 {
        Map::empty()
    } else {
        let n = ns.last();
        node_table(ns.drop_last()).insert(
            n.id,
            graph_node_of(n.id, kind_of_text(n.node_type@)->Some_0),
        )
    }
}

/// Both ends of the link are known nodes.
pub open spec fn link_known(table: Map<i32, GraphNode>, l: Link) -> bool {
    table.contains_key(l.src_id) && table.contains_key(l.dst_id)
}

/// The first link with an end that is not a known node.
pub open spec fn first_bad_link(table: Map<i32, GraphNode>, ls: Seq<Link>) -> Option<Link>
    decreases ls.len(),
{
    if ls.len() == 0 {
        None
    } else {
        match first_bad_link(table, ls.drop_last()) {
            Some(l) => Some(l),
            None => if !link_known(table, ls.last()) {
                Some(ls.last())
            } else {
                None
            },
        }
    }
}

/// The end of a link reported missing: the source when it is missing, else the destination.
pub open spec fn missing_end(table: Map<i32, GraphNode>, l: Link) -> i32 {
    if !table.contains_key(l.src_id) {
        l.src_id
    } else {
        l.dst_id
    }
}

/// The link joins node `id` to the graph node `x`.
pub open spec fn link_joins(table: Map<i32, GraphNode>, l: Link, id: i32, x: GraphNode) -> bool {
    (l.src_id == id && x == table[l.dst_id]) || (l.dst_id == id && x == table[l.src_id])
}

/// Some link of the list joins `id` to `x`.
pub open spec fn adjacent(table: Map<i32, GraphNode>, ls: Seq<Link>, id: i32, x: GraphNode) -> bool {
    exists|k: int| 0 <= k < ls.len() && #[trigger] link_joins(table, ls[k], id, x)
}

/// The graph of nodes and their connections.
#[derive(Debug)]
pub struct Graph {
    pub nodes: HashMap<i32, GraphNode>,
    pub connections: HashMap<i32, Vec<GraphNode>>,
}

impl GraphNode {
    /// The graph node for a node of the given kind.
    pub fn new(id: i32, node_type: NodeKind) -> (r: GraphNode)
        ensures
            r == graph_node_of(id, node_type),
    {
        match node_type {
            NodeKind::EprNode => GraphNode::EprNode(id),
            _ => GraphNode::ClientNode(id),
        }
    }

    /// The id of the node.
    pub fn get_id(&self) -> (r: i32)
        ensures
            r == id_of(*self),
    {
        match self {
            GraphNode::ClientNode(id) => *id,
            GraphNode::EprNode(id) => *id,
        }
    }
}

fn contains_node(v: &Vec<GraphNode>, x: GraphNode) -> (r: bool)
    ensures
        r == v@.contains(x),
{
    let mut i: usize = 0;
    while i < v.len()
        invariant
            i <= v@.len(),
            forall|k: int| 0 <= k < i ==> v@[k] != x,
        decreases v@.len() - i,
    {
        if v[i] == x {
            return true;
        }
        i = i + 1;
    }
    false
}

fn insert_unique(v: &mut Vec<GraphNode>, x: GraphNode)
    requires
        old(v)@.no_duplicates(),
    ensures
        final(v)@.no_duplicates(),
        final(v)@.to_set() == old(v)@.to_set().insert(x),
{
    if !contains_node(v, x) {
        v.push(x);
        proof {
            assert(final(v)@.to_set() =~= old(v)@.to_set().insert(x)) by {
                assert forall|y: GraphNode| final(v)@.contains(y) <==> old(v)@.contains(y) || y == x by {
                    if final(v)@.contains(y) {
                        let k = choose|k: int| 0 <= k < final(v)@.len() && final(v)@[k] == y;
                        if k < old(v)@.len() {
                            assert(old(v)@[k] == y);
                        }
                    }
                    if old(v)@.contains(y) {
                        let k = choose|k: int| 0 <= k < old(v)@.len() && old(v)@[k] == y;
                        assert(final(v)@[k] == y);
                    }
                    if y == x {
                        assert(final(v)@[old(v)@.len() as int] == x);
                    }
                }
            }
        }
    } else {
        proof {
            assert(old(v)@.to_set() =~= old(v)@.to_set().insert(x));
        }
    }
}

impl Graph {
    /// The graph node of every id.
    pub open spec fn node_map(&self) -> Map<i32, GraphNode> {
        self.nodes@
    }

    /// Whether the graph has a neighbour list for `id`.
    pub open spec fn has_connections(&self, id: i32) -> bool {
        self.connections@.contains_key(id)
    }

    /// The neighbours of `id`.
    pub open spec fn neighbours(&self, id: i32) -> Set<GraphNode> {
        self.connections@[id]@.to_set()
    }

    /// Neighbour lists exist exactly for the nodes, and hold no node twice.
    pub open spec fn wf(&self) -> bool {
        &&& self.connections@.dom() == self.nodes@.dom()
        &&& forall|id: i32| #[trigger] self.connections@.contains_key(id) ==> self.connections@[id]@.no_duplicates()
    }

    /// Builds the graph from the nodes and links: a node type that names no kind, and a
    /// link with an unknown end, are refused.
    pub fn from_data(curr_nodes: Vec<Node>, curr_links: Vec<Link>) -> (r: Result<Graph, GraphError>)
        ensures
            match first_bad_kind(curr_nodes@) {
                Some(n) => r matches Err(GraphError::Node(NodeError::NotValidKind(t))) && t@ == n.node_type@,
                None => match first_bad_link(node_table(curr_nodes@), curr_links@) {
                    Some(l) => r matches Err(GraphError::Link(LinkError::MissingNode(id)))
                        && id == missing_end(node_table(curr_nodes@), l),
                    None => r matches Ok(g) && g.wf() && g.node_map() == node_table(curr_nodes@)
                        && forall|id: i32, x: GraphNode|
                        #![trigger g.neighbours(id).contains(x)]
                        g.has_connections(id) ==> (g.neighbours(id).contains(x) <==> adjacent(
                            node_table(curr_nodes@),
                            curr_links@,
                            id,
                            x,
                        )),
                },
            },
    {
        let mut graph = Graph { nodes: HashMap::new(), connections: HashMap::new() };
        let mut i: usize = 0;
        while i < curr_nodes.len()
            invariant
                i <= curr_nodes@.len(),
                first_bad_kind(curr_nodes@.take(i as int)) is None,
                graph.nodes@ == node_table(curr_nodes@.take(i as int)),
                graph.wf(),
                forall|id: i32| #[trigger] graph.connections@.contains_key(id) ==> graph.connections@[id]@.len() == 0,
            decreases curr_nodes@.len() - i,
        {
            let ghost prefix = curr_nodes@.take(i as int);
            let ghost next = curr_nodes@.take(i as int + 1);
            proof {
                assert(next.drop_last() =~= prefix);
                assert(next.last() == curr_nodes@[i as int]);
            }
            let node = &curr_nodes[i];
            let kind = match NodeKind::parse_kind(node.node_type.as_str()) {
                Ok(k) => k,
                Err(_) => {
                    proof {
                        assert(first_bad_kind(next) == Some(curr_nodes@[i as int]));
                        lemma_first_bad_kind_extends(curr_nodes@, i as int + 1);
                    }
                    return Err(GraphError::Node(NodeError::NotValidKind(node.node_type.clone())));
                },
            };
            graph.nodes.insert(node.id, GraphNode::new(node.id, kind));
            graph.connections.insert(node.id, Vec::new());
            proof {
                assert(graph.connections@.dom() =~= graph.nodes@.dom());
            }
            i = i + 1;
        }
        proof {
            assert(curr_nodes@.take(curr_nodes@.len() as int) =~= curr_nodes@);
        }
        let ghost table = graph.nodes@;
        let mut j: usize = 0;
        while j < curr_links.len()
            invariant
                j <= curr_links@.len(),
                table == node_table(curr_nodes@),
                first_bad_kind(curr_nodes@) is None,
                graph.nodes@ == table,
                graph.wf(),
                first_bad_link(table, curr_links@.take(j as int)) is None,
                forall|id: i32, x: GraphNode|
                    #![trigger graph.neighbours(id).contains(x)]
                    graph.has_connections(id) ==> (graph.neighbours(id).contains(x) <==> adjacent(
                        table,
                        curr_links@.take(j as int),
                        id,
                        x,
                    )),
            decreases curr_links@.len() - j,
        {
            let ghost prefix = curr_links@.take(j as int);
            let ghost next = curr_links@.take(j as int + 1);
            proof {
                assert(next.drop_last() =~= prefix);
                assert(next.last() == curr_links@[j as int]);
            }
            let link = curr_links[j];
            let src_node = match graph.nodes.get(&link.src_id) {
                Some(g) => *g,
                None => {
                    proof {
                        assert(first_bad_link(table, next) == Some(link));
                        lemma_first_bad_link_extends(table, curr_links@, j as int + 1);
                    }
                    return Err(GraphError::Link(LinkError::MissingNode(link.src_id)));
                },
            };
            let dst_node = match graph.nodes.get(&link.dst_id) {
                Some(g) => *g,
                None => {
                    proof {
                        assert(first_bad_link(table, next) == Some(link));
                        lemma_first_bad_link_extends(table, curr_links@, j as int + 1);
                    }
                    return Err(GraphError::Link(LinkError::MissingNode(link.dst_id)));
                },
            };
            let ghost before = graph.connections@;
            let ghost g0 = graph;
            let mut src_list = match graph.connections.remove(&link.src_id) {
                Some(v) => v,
                None => {
                    proof {
                        assert(false);
                    }
                    return Err(GraphError::Link(LinkError::MissingNode(link.src_id)));
                },
            };
            let ghost s_before = src_list@;
            insert_unique(&mut src_list, dst_node);
            let ghost s_after = src_list@;
            graph.connections.insert(link.src_id, src_list);
            let ghost middle = graph.connections@;
            let mut dst_list = match graph.connections.remove(&link.dst_id) {
                Some(v) => v,
                None => {
                    proof {
                        assert(false);
                    }
                    return Err(GraphError::Link(LinkError::MissingNode(link.dst_id)));
                },
            };
            let ghost d_before = dst_list@;
            insert_unique(&mut dst_list, src_node);
            let ghost d_after = dst_list@;
            graph.connections.insert(link.dst_id, dst_list);
            proof {
                assert(graph.connections@.dom() =~= graph.nodes@.dom());
                assert forall|id: i32, x: GraphNode|
                    #![trigger graph.neighbours(id).contains(x)]
                    graph.has_connections(id) implies (graph.neighbours(id).contains(x) <==> adjacent(
                    table,
                    next,
                    id,
                    x,
                )) by {
                    assert(next[j as int] == link);
                    if adjacent(table, next, id, x) {
                        let k = choose|k: int| 0 <= k < next.len() && #[trigger] link_joins(table, next[k], id, x);
                        if k < j {
                            assert(prefix[k] == next[k]);
                            assert(adjacent(table, prefix, id, x));
                        }
                    }
                    if adjacent(table, prefix, id, x) {
                        let k = choose|k: int| 0 <= k < prefix.len() && #[trigger] link_joins(table, prefix[k], id, x);
                        assert(next[k] == prefix[k]);
                        assert(link_joins(table, next[k], id, x));
                    }
                    if link_joins(table, link, id, x) {
                        assert(link_joins(table, next[j as int], id, x));
                    }
                    assert(graph.has_connections(id));
                    assert(before.contains_key(id));
                    assert(g0.neighbours(id).contains(x) <==> adjacent(table, prefix, id, x));
                    assert(src_node == table[link.src_id]);
                    assert(dst_node == table[link.dst_id]);
                    assert(s_before == before[link.src_id]@);
                    if link.dst_id == link.src_id {
                        assert(d_before == s_after);
                    } else {
                        assert(d_before == before[link.dst_id]@);
                    }
                    if id == link.dst_id {
                        assert(graph.neighbours(id) == d_after.to_set());
                    } else if id == link.src_id {
                        assert(graph.neighbours(id) == s_after.to_set());
                    } else {
                        assert(graph.neighbours(id) == g0.neighbours(id));
                    }
                }
            }
            j = j + 1;
        }
        proof {
            assert(curr_links@.take(curr_links@.len() as int) =~= curr_links@);
        }
        Ok(graph)
    }

    /// The id of the EPR node that both nodes are linked to; with several, the smallest id.
    pub fn get_node_epr(&self, src_id: i32, dst_id: i32) -> (r: Result<i32, GraphError>)
        requires
            self.wf(),
        ensures
            !self.has_connections(src_id) ==> (r matches Err(GraphError::Link(LinkError::MissingNode(id)))
                && id == src_id),
            self.has_connections(src_id) && !self.has_connections(dst_id) ==> (r matches Err(
                GraphError::Link(LinkError::MissingNode(id)),
            ) && id == dst_id),
            self.has_connections(src_id) && self.has_connections(dst_id) ==> match r {
                Ok(id) => self.neighbours(src_id).contains(GraphNode::EprNode(id))
                    && self.neighbours(dst_id).contains(GraphNode::EprNode(id)) && forall|other: i32|
                    #![trigger self.neighbours(src_id).contains(GraphNode::EprNode(other))]
                    self.neighbours(src_id).contains(GraphNode::EprNode(other))
                        && self.neighbours(dst_id).contains(GraphNode::EprNode(other)) ==> id <= other,
                Err(e) => e matches GraphError::NoCommonEpr(a, b) && a == src_id && b == dst_id
                    && forall|other: i32|
                    #![trigger self.neighbours(src_id).contains(GraphNode::EprNode(other))]
                    !(self.neighbours(src_id).contains(GraphNode::EprNode(other))
                        && self.neighbours(dst_id).contains(GraphNode::EprNode(other))),
            },
    {
        let a_neighbors = match self.connections.get(&src_id) {
            Some(v) => v,
            None => {
                return Err(GraphError::Link(LinkError::MissingNode(src_id)));
            },
        };
        let b_neighbors = match self.connections.get(&dst_id) {
            Some(v) => v,
            None => {
                return Err(GraphError::Link(LinkError::MissingNode(dst_id)));
            },
        };
        let mut best: Option<i32> = None;
        let mut k: usize = 0;
        while k < b_neighbors.len()
            invariant
                k <= b_neighbors@.len(),
                a_neighbors@ == self.connections@[src_id]@,
                b_neighbors@ == self.connections@[dst_id]@,
                match best {
                    Some(id) => a_neighbors@.contains(GraphNode::EprNode(id)) && b_neighbors@.subrange(0, k as int).contains(GraphNode::EprNode(id))
                        && forall|other: i32|
                        #![trigger a_neighbors@.contains(GraphNode::EprNode(other))]
                        a_neighbors@.contains(GraphNode::EprNode(other)) && b_neighbors@.subrange(0, k as int).contains(GraphNode::EprNode(other)) ==> id <= other,
                    None => forall|other: i32|
                        #![trigger a_neighbors@.contains(GraphNode::EprNode(other))]
                        !(a_neighbors@.contains(GraphNode::EprNode(other)) && b_neighbors@.subrange(0, k as int).contains(GraphNode::EprNode(other))),
                },
            decreases b_neighbors@.len() - k,
        {
            let node = b_neighbors[k];
            let ghost prefix = b_neighbors@.subrange(0, k as int);
            let ghost next = b_neighbors@.subrange(0, k as int + 1);
            proof {
                assert(next =~= prefix.push(node));
                assert forall|y: GraphNode| next.contains(y) <==> prefix.contains(y) || y == node by {
                    if next.contains(y) {
                        let t = choose|t: int| 0 <= t < next.len() && next[t] == y;
                        if t < k {
                            assert(prefix[t] == y);
                        }
                    }
                    if prefix.contains(y) {
                        let t = choose|t: int| 0 <= t < prefix.len() && prefix[t] == y;
                        assert(next[t] == y);
                    }
                    if y == node {
                        assert(next[k as int] == y);
                    }
                }
            }
            if contains_node(a_neighbors, node) {
                match node {
                    GraphNode::EprNode(id) => {
                        match best {
                            Some(b) => {
                                if id < b {
                                    best = Some(id);
                                }
                            },
                            None => {
                                best = Some(id);
                            },
                        }
                    },
                    GraphNode::ClientNode(_) => {},
                }
            }
            k = k + 1;
        }
        proof {
            assert(b_neighbors@.subrange(0, b_neighbors@.len() as int) =~= b_neighbors@);
            assert forall|other: i32| #[trigger] self.neighbours(src_id).contains(GraphNode::EprNode(other))
                <==> a_neighbors@.contains(GraphNode::EprNode(other)) by {}
            assert forall|other: i32| #[trigger] self.neighbours(dst_id).contains(GraphNode::EprNode(other))
                <==> b_neighbors@.contains(GraphNode::EprNode(other)) by {}
        }
        match best {
            Some(epr) => Ok(epr),
            None => Err(GraphError::NoCommonEpr(src_id, dst_id)),
        }
    }
}

proof fn lemma_first_bad_kind_extends(ns: Seq<Node>, i: int)
    requires
        0 <= i <= ns.len(),
        first_bad_kind(ns.take(i)) is Some,
    ensures
        first_bad_kind(ns) == first_bad_kind(ns.take(i)),
    decreases ns.len() - i,
{
    if i < ns.len() {
        assert(ns.take(i + 1).drop_last() =~= ns.take(i));
        lemma_first_bad_kind_extends(ns, i + 1);
    } else {
        assert(ns.take(i) =~= ns);
    }
}

proof fn lemma_first_bad_link_extends(table: Map<i32, GraphNode>, ls: Seq<Link>, i: int)
    requires
        0 <= i <= ls.len(),
        first_bad_link(table, ls.take(i)) is Some,
    ensures
        first_bad_link(table, ls) == first_bad_link(table, ls.take(i)),
    decreases ls.len() - i,
{
    if i < ls.len() {
        assert(ls.take(i + 1).drop_last() =~= ls.take(i));
        lemma_first_bad_link_extends(table, ls, i + 1);
    } else {
        assert(ls.take(i) =~= ls);
    }
}

proof fn lemma_node_table_ids(ns: Seq<Node>, k: i32)
    requires
        node_table(ns).contains_key(k),
    ensures
        id_of(node_table(ns)[k]) == k,
    decreases ns.len(),
{
    if ns.len() > 0 && ns.last().id != k {
        lemma_node_table_ids(ns.drop_last(), k);
    }
}

proof fn lemma_links_known(table: Map<i32, GraphNode>, ls: Seq<Link>, k: int)
    requires
        first_bad_link(table, ls) is None,
        0 <= k < ls.len(),
    ensures
        link_known(table, ls[k]),
    decreases ls.len(),
{
    if k < ls.len() - 1 {
        lemma_links_known(table, ls.drop_last(), k);
        assert(ls.drop_last()[k] == ls[k]);
    }
}

/// Links join nodes both ways: in a network whose links all end at known nodes, a link
/// makes `b` a neighbour of `a` exactly when it makes `a` a neighbour of `b`.
pub proof fn law_links_join_both_ways(ns: Seq<Node>, ls: Seq<Link>, a: i32, b: i32)
    requires
        node_table(ns).contains_key(a),
        node_table(ns).contains_key(b),
        first_bad_link(node_table(ns), ls) is None,
    ensures
        adjacent(node_table(ns), ls, a, node_table(ns)[b]) <==> adjacent(
            node_table(ns),
            ls,
            b,
            node_table(ns)[a],
        ),
{
    let t = node_table(ns);
    lemma_node_table_ids(ns, a);
    lemma_node_table_ids(ns, b);
    assert forall|x: i32, y: i32, k: int|
        0 <= k < ls.len() && t.contains_key(x) && t.contains_key(y) && #[trigger] link_joins(t, ls[k], x, t[y])
            implies link_joins(t, ls[k], y, t[x]) by {
        lemma_links_known(t, ls, k);
        lemma_node_table_ids(ns, x);
        lemma_node_table_ids(ns, y);
        lemma_node_table_ids(ns, ls[k].src_id);
        lemma_node_table_ids(ns, ls[k].dst_id);
    }
    if adjacent(t, ls, a, t[b]) {
        let k = choose|k: int| 0 <= k < ls.len() && #[trigger] link_joins(t, ls[k], a, t[b]);
        assert(link_joins(t, ls[k], b, t[a]));
    }
    if adjacent(t, ls, b, t[a]) {
        let k = choose|k: int| 0 <= k < ls.len() && #[trigger] link_joins(t, ls[k], b, t[a]);
        assert(link_joins(t, ls[k], a, t[b]));
    }
}

} // verus!
