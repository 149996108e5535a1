//! The directed graph that holds the parse tree, and what is taken on trust
//! about it.

use vstd::prelude::*;
use petgraph::graph::NodeIndex;
use petgraph::Graph;
use crate::tree::ParseTree;

verus! {

/// `petgraph::Directed`, the mark of a graph whose edges have a direction.
#[verifier::external_type_specification]
#[verifier::external_body]
pub struct ExDirected(petgraph::Directed);

/// `petgraph::Graph`, of which nothing is known but what the functions
/// below say.
#[verifier::external_type_specification]
#[verifier::external_body]
#[verifier::reject_recursive_types(N)]
#[verifier::reject_recursive_types(E)]
#[verifier::reject_recursive_types(Ty)]
#[verifier::reject_recursive_types(Ix)]
pub struct ExGraph<N, E, Ty, Ix>(Graph<N, E, Ty, Ix>);

/// The labels of the graph's nodes, in the order in which they were added.
/// A node's number is its place in this sequence.
pub uninterp spec fn graph_labels(g: Graph<String, &'static str>) -> Seq<Seq<char>>;

/// The graph's edges, each as source and target, in the order in which they
/// were added.
pub uninterp spec fn graph_edges(g: Graph<String, &'static str>) -> Seq<(int, int)>;

/// The number of nodes or of edges that a graph cannot reach.
pub const GRAPH_LIMIT: usize = 0xFFFF_FFFF;

/// What a graph holds, as a value.
pub struct GraphValue {
    pub labels: Seq<Seq<char>>,
    pub edges: Seq<(int, int)>,
}

/// The value of the graph `g`.
pub open spec fn graph_value(g: Graph<String, &'static str>) -> GraphValue {
    GraphValue { labels: graph_labels(g), edges: graph_edges(g) }
}

impl GraphValue {
    /// The graph without nodes and edges.
    pub open spec fn empty() -> GraphValue {
        GraphValue { labels: Seq::empty(), edges: Seq::empty() }
    }

    /// The graph with `tree` added to it: the tree's nodes after the nodes
    /// that are there, in the order of `ParseTree::labels`, so that its root
    /// gets the number `self.labels.len()`, and its edges after the edges
    /// that are there, in the order of `ParseTree::edges`.
    pub open spec fn plant(self, tree: ParseTree) -> GraphValue {
        GraphValue {
            labels: self.labels + tree.labels(),
            edges: self.edges + tree.edges(self.labels.len() as int),
        }
    }

    /// Whether this graph is `old` with nodes and edges added at the end.
    pub open spec fn extends(self, old: GraphValue) -> bool {
        old.labels.is_prefix_of(self.labels) && old.edges.is_prefix_of(self.edges)
    }
}

/// The holder of the one operation on the tree's nodes.
#[derive(Debug, PartialEq, Eq, Clone, Copy, Structural)]
pub struct Tree {}

impl Tree {
    /// `Graph::add_node`: the new node comes last and gets the next number,
    /// which `NodeIndex::index` gives; the edges stay. The outside function
    /// panics when the graph holds as many nodes as its index type can
    /// count.
    #[verifier::external_body]
    pub fn get_leaf(graph: &mut Graph<String, &'static str>, tok: String) -> (node: usize)
        requires
            graph_labels(*old(graph)).len() < GRAPH_LIMIT,
        ensures
            graph_labels(*final(graph)) == graph_labels(*old(graph)).push(tok@),
            graph_edges(*final(graph)) == graph_edges(*old(graph)),
            node == graph_labels(*old(graph)).len(),
    {
        graph.add_node(tok).index()
    }
}

/// `Graph::new`: a graph without nodes and edges.
#[verifier::external_body]
pub(crate) fn new_graph() -> (g: Graph<String, &'static str>)
    ensures
        graph_labels(g) == Seq::<Seq<char>>::empty(),
        graph_edges(g) == Seq::<(int, int)>::empty(),
{
    Graph::new()
}

/// `Graph::add_edge`, with the two nodes made by `NodeIndex::new`: the new
/// edge comes last; the nodes stay. The outside function panics when one of
/// the nodes is not in the graph or when the graph holds as many edges as
/// its index type can count.
#[verifier::external_body]
pub(crate) fn add_edge(graph: &mut Graph<String, &'static str>, from: usize, to: usize)
    requires
        from < graph_labels(*old(graph)).len(),
        to < graph_labels(*old(graph)).len(),
        graph_edges(*old(graph)).len() < GRAPH_LIMIT,
    ensures
        graph_labels(*final(graph)) == graph_labels(*old(graph)),
        graph_edges(*final(graph)) == graph_edges(*old(graph)).push((from as int, to as int)),
{
    graph.add_edge(NodeIndex::new(from), NodeIndex::new(to), "");
}

} // verus!
