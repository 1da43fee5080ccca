//! The solve graph: equation states as nodes, transformation applications
//! as edges labeled with the constraints they emitted.
//!
//! The undirected graph structure itself comes from the `petgraph` crate,
//! held behind trusted declarations. Node weights and edge weights are kept
//! as plain indices into arenas owned by this module: node weight `i` is
//! the equation at `equations[i]`, edge weight `j` the constraint list at
//! `constraints[j]`.

use vstd::prelude::*;

use crate::ast::equation::Equation;

verus! {

/// Trusted declaration of `petgraph::graph::Graph` so that values of it can
/// be held in fields; every use goes through the wrappers below.
#[verifier::external_type_specification]
#[verifier::external_body]
#[verifier::reject_recursive_types(N)]
#[verifier::reject_recursive_types(E)]
#[verifier::reject_recursive_types(Ty)]
#[verifier::reject_recursive_types(Ix)]
pub struct ExGraph<N, E, Ty, Ix>(petgraph::graph::Graph<N, E, Ty, Ix>);

/// Trusted declaration of `petgraph::Undirected`, the edge-type marker.
#[verifier::external_type_specification]
#[verifier::external_body]
pub struct ExUndirected(petgraph::Undirected);

/// The concrete graph shape this crate stores.
pub type SolveGraph = petgraph::graph::Graph<u64, u64, petgraph::Undirected, u32>;

/// The node weights of the graph, in node-index order. `petgraph` stores
/// nodes in a vector and `add_node` appends, so the sequence follows
/// insertion order.
pub uninterp spec fn graph_nodes(g: SolveGraph) -> Seq<u64>;

/// The edges of the graph, in edge-index order: endpoints and weight.
pub uninterp spec fn graph_edges(g: SolveGraph) -> Seq<(usize, usize, u64)>;

/// Relies on `petgraph::graph::Graph::new_undirected`: it builds a graph
/// with no nodes and no edges.
#[verifier::external_body]
fn graph_new() -> (g: SolveGraph)
    ensures
        graph_nodes(g) == Seq::<u64>::empty(),
        graph_edges(g) == Seq::<(usize, usize, u64)>::empty(),
{
    petgraph::graph::Graph::new_undirected()
}

/// Relies on `petgraph::graph::Graph::add_node`: it appends a node and
/// returns its index, which equals the previous node count; it panics only
/// at the index type's capacity, which the precondition rules out.
#[verifier::external_body]
fn graph_add_node(g: &mut SolveGraph, w: u64) -> (i: usize)
    requires
        graph_nodes(*old(g)).len() < 0xFFFF_FFFFusize,
    ensures
        graph_nodes(*final(g)) == graph_nodes(*old(g)).push(w),
        graph_edges(*final(g)) == graph_edges(*old(g)),
        i == graph_nodes(*old(g)).len(),
{
    g.add_node(w).index()
}

/// Relies on `petgraph::graph::Graph::add_edge`: it appends an edge between
/// two existing nodes and returns its index, the previous edge count; it
/// panics only for missing endpoints or at the index type's capacity, which
/// the preconditions rule out.
#[verifier::external_body]
fn graph_add_edge(g: &mut SolveGraph, a: usize, b: usize, w: u64) -> (i: usize)
    requires
        a < graph_nodes(*old(g)).len(),
        b < graph_nodes(*old(g)).len(),
        graph_edges(*old(g)).len() < 0xFFFF_FFFFusize,
    ensures
        graph_edges(*final(g)) == graph_edges(*old(g)).push((a, b, w)),
        graph_nodes(*final(g)) == graph_nodes(*old(g)),
        i == graph_edges(*old(g)).len(),
{
    g.add_edge(
        petgraph::graph::NodeIndex::new(a),
        petgraph::graph::NodeIndex::new(b),
        w,
    ).index()
}

/// Relies on `petgraph::graph::Graph::node_weight`: it returns the weight
/// stored for an existing node index.
#[verifier::external_body]
fn graph_node_weight(g: &SolveGraph, i: usize) -> (w: u64)
    requires
        i < graph_nodes(*g).len(),
    ensures
        w == graph_nodes(*g)[i as int],
{
    match g.node_weight(petgraph::graph::NodeIndex::new(i)) {
        Some(w) => *w,
        None => 0,
    }
}

/// The graph of equation states explored while solving.
pub struct EquationGraph {
    pub graph: SolveGraph,
    pub equations: Vec<Equation>,
    pub constraints: Vec<Vec<String>>,
    pub edge_ends: Vec<(usize, usize)>,
}

impl EquationGraph {
    /// Node weights are exactly the equation-arena indices, edge weights
    /// valid constraint-arena indices with valid endpoints.
    pub open spec fn wf(self) -> bool {
        &&& graph_nodes(self.graph).len() == self.equations@.len()
        &&& forall|i: int|
            0 <= i < graph_nodes(self.graph).len() ==> #[trigger] graph_nodes(self.graph)[i]
                == i as u64
        &&& graph_edges(self.graph).len() == self.constraints@.len()
        &&& self.edge_ends@.len() == self.constraints@.len()
        &&& forall|j: int|
            0 <= j < graph_edges(self.graph).len() ==> (#[trigger] graph_edges(self.graph)[j]).0
                < self.equations@.len() && graph_edges(self.graph)[j].1 < self.equations@.len()
                && graph_edges(self.graph)[j].2 == j as u64
        &&& forall|j: int|
            0 <= j < self.edge_ends@.len() ==> (#[trigger] self.edge_ends@[j]).0 == graph_edges(
                self.graph,
            )[j].0 && self.edge_ends@[j].1 == graph_edges(self.graph)[j].1
    }

    pub open spec fn node_count(self) -> int {
        self.equations@.len() as int
    }

    /// A fresh graph holding one equation state; returns its node index.
    pub fn new(equation: Equation) -> (r: (EquationGraph, usize))
        ensures
            r.0.wf(),
            r.0.equations@.len() == 1,
            r.0.equations@[0]@ == equation@,
            r.0.constraints@.len() == 0,
            graph_edges(r.0.graph).len() == 0,
            r.1 == 0,
    {
        let mut graph = graph_new();
        let idx = graph_add_node(&mut graph, 0);
        let mut equations: Vec<Equation> = Vec::new();
        equations.push(equation);
        let g = EquationGraph { graph, equations, constraints: Vec::new(), edge_ends: Vec::new() };
        (g, idx)
    }

    /// Add a transformed equation as a new node with an edge from `index`,
    /// labeled by the constraints the transformation emitted. Returns the
    /// new node's index and the edge's index.
    pub fn add_path(&mut self, equation: Equation, constraints: Vec<String>, index: usize) -> (r:
        (usize, usize))
        requires
            old(self).wf(),
            index < old(self).equations@.len(),
            old(self).equations@.len() < 0xFFFF_FFFFusize,
            old(self).constraints@.len() < 0xFFFF_FFFFusize,
        ensures
            final(self).wf(),
            final(self).equations@ == old(self).equations@.push(equation),
            final(self).constraints@ == old(self).constraints@.push(constraints),
            final(self).edge_ends@ == old(self).edge_ends@.push(
                (index, old(self).equations@.len() as usize),
            ),
            graph_edges(final(self).graph) == graph_edges(old(self).graph).push(
                (index, old(self).equations@.len() as usize, old(self).constraints@.len() as u64),
            ),
            r.0 == old(self).equations@.len(),
            r.1 == old(self).constraints@.len(),
    {
        let node_id = self.equations.len() as u64;
        let node_index = graph_add_node(&mut self.graph, node_id);
        self.equations.push(equation);
        let edge_id = self.constraints.len() as u64;
        let edge_index = graph_add_edge(&mut self.graph, index, node_index, edge_id);
        self.constraints.push(constraints);
        self.edge_ends.push((index, node_index));
        (node_index, edge_index)
    }

    /// Read an equation state back through the graph's node weight.
    pub fn equation_at(&self, index: usize) -> (r: &Equation)
        requires
            self.wf(),
            index < self.equations@.len(),
        ensures
            r == self.equations@[index as int],
    {
        let w = graph_node_weight(&self.graph, index);
        proof {
            assert(graph_nodes(self.graph)[index as int] == index as u64);
        }
        &self.equations[w as usize]
    }

    /// Replace an equation state.
    pub fn set_equation(&mut self, index: usize, equation: Equation)
        requires
            old(self).wf(),
            index < old(self).equations@.len(),
        ensures
            final(self).wf(),
            final(self).equations@ == old(self).equations@.update(index as int, equation),
            final(self).constraints@ == old(self).constraints@,
            final(self).edge_ends@ == old(self).edge_ends@,
            graph_edges(final(self).graph) == graph_edges(old(self).graph),
    {
        self.equations.set(index, equation);
    }
}

} // verus!
