//! A directed acyclic graph with weights on its nodes and edges.

use daggy::petgraph::visit::{EdgeRef, IntoEdges, IntoEdgesDirected, Topo};
use daggy::petgraph::Direction;
use daggy::{NodeIndex, Walker};
use vstd::prelude::*;

use crate::reach::{
    acyclic, arcs_within, is_topological_order, lemma_push_keeps_acyclic, lists_arcs_from,
    lists_arcs_into, reaches,
};

verus! {

/// The nodes and arcs of a graph, kept by `daggy::Dag` without weights.
#[verifier::external_body]
pub struct Topology {
    dag: daggy::Dag<(), ()>,
}

/// The arcs that a `daggy::Dag` holds, by edge index: the start and the end of each.
pub uninterp spec fn topology_arcs(topology: Topology) -> Seq<(usize, usize)>;

/// How many nodes a `daggy::Dag` holds; their indices are the numbers below.
pub uninterp spec fn topology_size(topology: Topology) -> nat;

/// The order in which `petgraph::visit::Topo` walks a graph of these arcs, by edge index, and of
/// this many nodes.
pub uninterp spec fn topological_walk(arcs: Seq<(usize, usize)>, size: nat) -> Seq<usize>;

/// The error with which `daggy::Dag::add_edge` refuses an edge.
#[verifier::external_type_specification]
#[verifier::external_body]
#[verifier::reject_recursive_types(E)]
pub struct ExWouldCycle<E>(daggy::WouldCycle<E>);

impl Topology {
    /// Calls `daggy::Dag::new`, which makes a graph without nodes and arcs.
    #[verifier::external_body]
    fn new() -> (topology: Topology)
        ensures
            topology_size(topology) == 0,
            topology_arcs(topology) == Seq::<(usize, usize)>::empty(),
    {
        Topology { dag: daggy::Dag::new() }
    }

    /// Calls `daggy::Dag::add_node`, which gives the new node the next index and leaves the arcs
    /// as they are. It panics where all indices of the graph's index type, `u32`, are taken.
    #[verifier::external_body]
    fn add_node(&mut self) -> (index: usize)
        requires
            topology_size(*old(self)) < u32::MAX,
        ensures
            index == topology_size(*old(self)),
            topology_size(*final(self)) == topology_size(*old(self)) + 1,
            topology_arcs(*final(self)) == topology_arcs(*old(self)),
    {
        self.dag.add_node(()).index()
    }

    /// Calls `daggy::Dag::add_edge`, which adds the arc under the next edge index, unless its end
    /// already reaches its start: then it changes nothing. It panics where a node does not exist
    /// or all indices of the graph's index type, `u32`, are taken.
    #[verifier::external_body]
    fn add_edge(&mut self, a: usize, b: usize) -> (result: Result<usize, daggy::WouldCycle<()>>)
        requires
            a < topology_size(*old(self)) <= u32::MAX,
            b < topology_size(*old(self)),
            topology_arcs(*old(self)).len() < u32::MAX,
            arcs_within(topology_arcs(*old(self)), topology_size(*old(self))),
            acyclic(topology_arcs(*old(self))),
        ensures
            result is Ok <==> !reaches(topology_arcs(*old(self)), b, a),
            result is Ok ==> result->Ok_0 == topology_arcs(*old(self)).len(),
            topology_size(*final(self)) == topology_size(*old(self)),
            topology_arcs(*final(self)) == if result is Ok {
                topology_arcs(*old(self)).push((a, b))
            } else {
                topology_arcs(*old(self))
            },
    {
        self.dag.add_edge(NodeIndex::new(a), NodeIndex::new(b), ()).map(|edge| edge.index())
    }

    /// Calls `edges` of `daggy::Dag`, which yields every edge that starts at the node once. It
    /// walks a list of them at whose head `add_edge` puts the new edge, so that the edge that was
    /// added last comes first; no edge is ever removed here.
    #[verifier::external_body]
    fn edges(&self, node: usize) -> (found: Vec<usize>)
        requires
            node < topology_size(*self) <= u32::MAX,
        ensures
            lists_arcs_from(topology_arcs(*self), node, found@),
    {
        self.dag.edges(NodeIndex::new(node)).map(|edge| edge.id().index()).collect()
    }

    /// Calls `edges_directed` of `daggy::Dag` with `Incoming`, which yields every edge that ends
    /// at the node once, with the node that it starts at. It walks a list of them at whose head
    /// `add_edge` puts the new edge, so that the edge that was added last comes first; no edge is
    /// ever removed here.
    #[verifier::external_body]
    fn edges_incoming(&self, node: usize) -> (found: Vec<(usize, usize)>)
        requires
            node < topology_size(*self) <= u32::MAX,
        ensures
            lists_arcs_into(topology_arcs(*self), node, found@),
    {
        self.dag
            .edges_directed(NodeIndex::new(node), Direction::Incoming)
            .map(|edge| (edge.id().index(), edge.source().index()))
            .collect()
    }

    /// Calls `petgraph::visit::Topo`, which walks an acyclic graph in a topological order. Which
    /// one depends on the nodes and arcs alone.
    #[verifier::external_body]
    fn topological_order(&self) -> (order: Vec<usize>)
        requires
            topology_size(*self) <= u32::MAX,
            arcs_within(topology_arcs(*self), topology_size(*self)),
            acyclic(topology_arcs(*self)),
        ensures
            order@ == topological_walk(topology_arcs(*self), topology_size(*self)),
            is_topological_order(topology_arcs(*self), topology_size(*self), order@),
    {
        Topo::new(&self.dag).iter(&self.dag).map(|node| node.index()).collect()
    }
}

/// The edge was not added because it would have closed a cycle. Holds the edge's weight.
#[derive(Debug)]
pub struct CycleError<E>(pub E);

/// A directed acyclic graph. Nodes and edges are known by their indices, which count up from
/// zero in the order in which they were added.
pub struct Graph<N, E> {
    topology: Topology,
    nodes: Vec<N>,
    edges: Vec<E>,
}

impl<N, E> Graph<N, E> {
    /// The weights of the nodes, by node index.
    pub closed spec fn nodes(&self) -> Seq<N> {
        self.nodes@
    }

    /// The weights of the edges, by edge index.
    pub closed spec fn edges(&self) -> Seq<E> {
        self.edges@
    }

    /// Where the edges start and end, by edge index.
    pub closed spec fn arcs(&self) -> Seq<(usize, usize)> {
        topology_arcs(self.topology)
    }

    /// There is one weight for each node.
    pub closed spec fn weights_fit(&self) -> bool {
        topology_size(self.topology) == self.nodes@.len()
    }

    /// Every edge joins two nodes of the graph, and no edge leads back to where it came from.
    pub open spec fn wf(&self) -> bool {
        &&& self.nodes().len() <= u32::MAX
        &&& self.arcs().len() == self.edges().len()
        &&& self.edges().len() <= u32::MAX
        &&& arcs_within(self.arcs(), self.nodes().len())
        &&& acyclic(self.arcs())
        &&& self.weights_fit()
    }

    /// A graph without nodes.
    pub fn new() -> (graph: Self)
        ensures
            graph.wf(),
            graph.nodes() == Seq::<N>::empty(),
            graph.edges() == Seq::<E>::empty(),
            graph.arcs() == Seq::<(usize, usize)>::empty(),
    {
        Graph { topology: Topology::new(), nodes: Vec::new(), edges: Vec::new() }
    }

    /// Adds a node and returns its index. The other nodes stay as they are.
    pub fn add_node(&mut self, weight: N) -> (index: usize)
        requires
            old(self).wf(),
            old(self).nodes().len() < u32::MAX,
        ensures
            final(self).wf(),
            index == old(self).nodes().len(),
            final(self).nodes() == old(self).nodes().push(weight),
            final(self).nodes().len() == old(self).nodes().len() + 1,
            final(self).nodes()[index as int] == weight,
            forall|i: int|
                0 <= i < index ==> #[trigger] final(self).nodes()[i] == old(self).nodes()[i],
            final(self).edges() == old(self).edges(),
            final(self).arcs() == old(self).arcs(),
    {
        let index: usize = self.topology.add_node();
        self.nodes.push(weight);
        index
    }

    /// Adds an edge from `a` to `b` and returns its index, unless `b` already reaches `a`.
    pub fn add_edge(&mut self, a: usize, b: usize, weight: E) -> (result: Result<
        usize,
        CycleError<E>,
    >)
        requires
            old(self).wf(),
            a < old(self).nodes().len(),
            b < old(self).nodes().len(),
            old(self).edges().len() < u32::MAX,
        ensures
            final(self).wf(),
            final(self).nodes() == old(self).nodes(),
            match result {
                Ok(index) => {
                    &&& !reaches(old(self).arcs(), b, a)
                    &&& index == old(self).edges().len()
                    &&& final(self).edges() == old(self).edges().push(weight)
                    &&& final(self).arcs() == old(self).arcs().push((a, b))
                },
                Err(error) => {
                    &&& reaches(old(self).arcs(), b, a)
                    &&& error.0 == weight
                    &&& final(self).edges() == old(self).edges()
                    &&& final(self).arcs() == old(self).arcs()
                },
            },
    {
        match self.topology.add_edge(a, b) {
            Ok(index) => {
                self.edges.push(weight);
                proof {
                    lemma_push_keeps_acyclic(old(self).arcs(), a, b);
                }
                Ok(index)
            },
            Err(_) => Err(CycleError(weight)),
        }
    }

    /// How many nodes there are.
    pub fn node_count(&self) -> (count: usize)
        ensures
            count == self.nodes().len(),
    {
        self.nodes.len()
    }

    /// How many edges there are.
    pub fn edge_count(&self) -> (count: usize)
        ensures
            count == self.edges().len(),
    {
        self.edges.len()
    }

    /// The weight of a node.
    pub fn node(&self, index: usize) -> (weight: &N)
        requires
            index < self.nodes().len(),
        ensures
            *weight == self.nodes()[index as int],
    {
        &self.nodes[index]
    }

    /// The weight of an edge.
    pub fn edge(&self, index: usize) -> (weight: &E)
        requires
            index < self.edges().len(),
        ensures
            *weight == self.edges()[index as int],
    {
        &self.edges[index]
    }

    /// The edges that start at a node, the latest one first. There are none where there is no such
    /// node.
    pub fn edges_from(&self, node: usize) -> (edges: Vec<usize>)
        requires
            self.wf(),
        ensures
            lists_arcs_from(self.arcs(), node, edges@),
    {
        if node < self.nodes.len() {
            self.topology.edges(node)
        } else {
            assert forall|i: int| 0 <= i < self.arcs().len() implies #[trigger] self.arcs()[i].0
                != node by {}
            Vec::new()
        }
    }

    /// The edges that end at a node, each with the node that it starts at, the latest one first.
    /// There are none where there is no such node.
    pub fn edges_into(&self, node: usize) -> (edges: Vec<(usize, usize)>)
        requires
            self.wf(),
        ensures
            lists_arcs_into(self.arcs(), node, edges@),
    {
        if node < self.nodes.len() {
            self.topology.edges_incoming(node)
        } else {
            assert forall|i: int| 0 <= i < self.arcs().len() implies #[trigger] self.arcs()[i].1
                != node by {}
            Vec::new()
        }
    }

    /// The nodes in an order in which every edge leads forward.
    pub fn topological_order(&self) -> (order: Vec<usize>)
        requires
            self.wf(),
        ensures
            order@ == topological_walk(self.arcs(), self.nodes().len()),
            is_topological_order(self.arcs(), self.nodes().len(), order@),
    {
        self.topology.topological_order()
    }

    /// The same graph with other weights on its edges.
    pub fn with_edges<F>(self, edges: Vec<F>) -> (graph: Graph<N, F>)
        requires
            self.wf(),
            edges@.len() == self.edges().len(),
        ensures
            graph.wf(),
            graph.nodes() == self.nodes(),
            graph.arcs() == self.arcs(),
            graph.edges() == edges@,
    {
        Graph { topology: self.topology, nodes: self.nodes, edges }
    }
}

} // verus!
