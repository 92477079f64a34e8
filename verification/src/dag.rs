//! A pipeline under construction.

use vstd::prelude::*;

use crate::errors::ExecutionError;
use crate::graph::Graph;
use crate::node::{
    NodeHandle, NodeKind, NodeType, PortHandle, ProcessorFactory, SinkFactory, SourceFactory,
};
use crate::reach::reaches;

verus! {

/// An edge between the ports of two nodes.
#[derive(Clone, Copy, Debug, PartialEq, Eq, Structural)]
pub struct EdgeType {
    pub from: PortHandle,
    pub to: PortHandle,
}

/// The edge at `i` leaves and enters its nodes at ports that they have.
pub open spec fn edge_fits_ports<T>(graph: Graph<NodeType<T>, EdgeType>, i: int) -> bool {
    let (from, to) = graph.arcs()[i];
    &&& graph.nodes()[from as int].kind.has_output_port(graph.edges()[i].from)
    &&& graph.nodes()[to as int].kind.input_ports().contains(graph.edges()[i].to)
}

/// Every edge leaves and enters its nodes at ports that they have.
pub open spec fn edges_fit_ports<T>(graph: Graph<NodeType<T>, EdgeType>) -> bool {
    forall|i: int| 0 <= i < graph.edges().len() ==> #[trigger] edge_fits_ports(graph, i)
}

/// A directed acyclic graph of sources, processors and sinks. The edges join output ports to
/// input ports.
#[verifier::reject_recursive_types(T)]
pub struct Dag<T> {
    graph: Graph<NodeType<T>, EdgeType>,
}

impl<T> Dag<T> {
    /// The nodes and edges.
    pub closed spec fn spec_graph(&self) -> Graph<NodeType<T>, EdgeType> {
        self.graph
    }

    /// The graph is well formed, and its edges fit the ports of its nodes.
    pub open spec fn wf(&self) -> bool {
        self.spec_graph().wf() && edges_fit_ports(self.spec_graph())
    }

    /// A pipeline without nodes.
    pub fn new() -> (dag: Self)
        ensures
            dag.wf(),
            dag.spec_graph().nodes() == Seq::<NodeType<T>>::empty(),
            dag.spec_graph().edges() == Seq::<EdgeType>::empty(),
            dag.spec_graph().arcs() == Seq::<(usize, usize)>::empty(),
    {
        Dag { graph: Graph::new() }
    }

    /// The nodes and edges.
    pub fn graph(&self) -> (graph: &Graph<NodeType<T>, EdgeType>)
        ensures
            *graph == self.spec_graph(),
    {
        &self.graph
    }

    /// Takes the nodes and edges out.
    pub fn into_graph(self) -> (graph: Graph<NodeType<T>, EdgeType>)
        ensures
            graph == self.spec_graph(),
    {
        self.graph
    }

    /// Adds a source and returns its index.
    pub fn add_source(&mut self, handle: NodeHandle, source: Box<dyn SourceFactory<T>>) -> (index:
        usize)
        requires
            old(self).wf(),
            old(self).spec_graph().nodes().len() < u32::MAX,
        ensures
            old(self).adds_node(
                *final(self),
                NodeType { handle, kind: NodeKind::Source(source) },
                index,
            ),
    {
        self.add_node(handle, NodeKind::Source(source))
    }

    /// Adds a processor and returns its index.
    pub fn add_processor(
        &mut self,
        handle: NodeHandle,
        processor: Box<dyn ProcessorFactory<T>>,
    ) -> (index: usize)
        requires
            old(self).wf(),
            old(self).spec_graph().nodes().len() < u32::MAX,
        ensures
            old(self).adds_node(
                *final(self),
                NodeType { handle, kind: NodeKind::Processor(processor) },
                index,
            ),
    {
        self.add_node(handle, NodeKind::Processor(processor))
    }

    /// Adds a sink and returns its index.
    pub fn add_sink(&mut self, handle: NodeHandle, sink: Box<dyn SinkFactory<T>>) -> (index: usize)
        requires
            old(self).wf(),
            old(self).spec_graph().nodes().len() < u32::MAX,
        ensures
            old(self).adds_node(
                *final(self),
                NodeType { handle, kind: NodeKind::Sink(sink) },
                index,
            ),
    {
        self.add_node(handle, NodeKind::Sink(sink))
    }

    /// `after` is this pipeline with one more node, at the next index. The clauses on the length
    /// and on the single nodes follow from the one before them, but not by themselves for a
    /// caller whose nodes hold trait objects.
    pub open spec fn adds_node(&self, after: Self, node: NodeType<T>, index: usize) -> bool {
        &&& after.wf()
        &&& index == self.spec_graph().nodes().len()
        &&& after.spec_graph().nodes() == self.spec_graph().nodes().push(node)
        &&& after.spec_graph().nodes().len() == self.spec_graph().nodes().len() + 1
        &&& after.spec_graph().nodes()[index as int] == node
        &&& forall|i: int|
            0 <= i < index ==> #[trigger] after.spec_graph().nodes()[i]
                == self.spec_graph().nodes()[i]
        &&& after.spec_graph().edges() == self.spec_graph().edges()
        &&& after.spec_graph().arcs() == self.spec_graph().arcs()
    }

    fn add_node(&mut self, handle: NodeHandle, kind: NodeKind<T>) -> (index: usize)
        requires
            old(self).wf(),
            old(self).spec_graph().nodes().len() < u32::MAX,
        ensures
            old(self).adds_node(*final(self), NodeType { handle, kind }, index),
    {
        let index: usize = self.graph.add_node(NodeType { handle, kind });
        assert forall|i: int| 0 <= i < self.spec_graph().edges().len() implies #[trigger]
            edge_fits_ports(self.spec_graph(), i) by {
            assert(edge_fits_ports(old(self).spec_graph(), i));
        }
        index
    }

    /// Connects an output port of one node to an input port of another and returns the index of
    /// the edge. Fails where a node lacks its port, or where the edge would close a cycle.
    pub fn connect_with_index(
        &mut self,
        from_node_index: usize,
        output_port: PortHandle,
        to_node_index: usize,
        input_port: PortHandle,
    ) -> (result: Result<usize, ExecutionError>)
        requires
            old(self).wf(),
            from_node_index < old(self).spec_graph().nodes().len(),
            to_node_index < old(self).spec_graph().nodes().len(),
            old(self).spec_graph().edges().len() < u32::MAX,
        ensures
            final(self).wf(),
            final(self).spec_graph().nodes() == old(self).spec_graph().nodes(),
            ({
                let graph = old(self).spec_graph();
                let from = graph.nodes()[from_node_index as int].kind;
                let to = graph.nodes()[to_node_index as int].kind;
                if !from.has_output_port(output_port) {
                    result == Err::<usize, _>(ExecutionError::InvalidPortHandle(output_port))
                } else if !to.input_ports().contains(input_port) {
                    result == Err::<usize, _>(ExecutionError::InvalidPortHandle(input_port))
                } else if reaches(graph.arcs(), to_node_index, from_node_index) {
                    result == Err::<usize, _>(ExecutionError::WouldCycle)
                } else {
                    result == Ok::<_, ExecutionError>(graph.edges().len() as usize)
                }
            }),
            result is Ok ==> {
                &&& final(self).spec_graph().edges() == old(self).spec_graph().edges().push(
                    EdgeType { from: output_port, to: input_port },
                )
                &&& final(self).spec_graph().arcs() == old(self).spec_graph().arcs().push(
                    (from_node_index, to_node_index),
                )
            },
            result is Err ==> {
                &&& final(self).spec_graph().edges() == old(self).spec_graph().edges()
                &&& final(self).spec_graph().arcs() == old(self).spec_graph().arcs()
            },
    {
        if !contains_output_port(&self.graph.node(from_node_index).kind, output_port) {
            return Err(ExecutionError::InvalidPortHandle(output_port));
        }
        if !contains_input_port(&self.graph.node(to_node_index).kind, input_port) {
            return Err(ExecutionError::InvalidPortHandle(input_port));
        }
        let edge = EdgeType { from: output_port, to: input_port };
        let result = match self.graph.add_edge(from_node_index, to_node_index, edge) {
            Ok(index) => Ok(index),
            Err(_) => Err(ExecutionError::WouldCycle),
        };
        assert forall|i: int| 0 <= i < self.spec_graph().edges().len() implies #[trigger]
            edge_fits_ports(self.spec_graph(), i) by {
            if i < old(self).spec_graph().edges().len() {
                assert(edge_fits_ports(old(self).spec_graph(), i));
            }
        }
        result
    }
}

/// Whether a node has an output port of this name.
fn contains_output_port<T>(kind: &NodeKind<T>, handle: PortHandle) -> (found: bool)
    ensures
        found == kind.has_output_port(handle),
{
    let ports = match kind {
        NodeKind::Source(source) => source.get_output_ports(),
        NodeKind::Processor(processor) => processor.get_output_ports(),
        NodeKind::Sink(_) => Vec::new(),
    };
    let mut i: usize = 0;
    while i < ports.len()
        invariant
            ports@ == kind.output_ports(),
            i <= ports.len(),
            forall|j: int| 0 <= j < i ==> (#[trigger] ports@[j]).handle != handle,
        decreases ports.len() - i,
    {
        if ports[i].handle == handle {
            assert(kind.output_ports()[i as int].handle == handle);
            return true;
        }
        i += 1;
    }
    false
}

/// Whether a node has an input port of this name.
fn contains_input_port<T>(kind: &NodeKind<T>, handle: PortHandle) -> (found: bool)
    ensures
        found == kind.input_ports().contains(handle),
{
    let ports = match kind {
        NodeKind::Source(_) => Vec::new(),
        NodeKind::Processor(processor) => processor.get_input_ports(),
        NodeKind::Sink(sink) => sink.get_input_ports(),
    };
    let mut i: usize = 0;
    while i < ports.len()
        invariant
            ports@ == kind.input_ports(),
            i <= ports.len(),
            forall|j: int| 0 <= j < i ==> #[trigger] ports@[j] != handle,
        decreases ports.len() - i,
    {
        if ports[i] == handle {
            assert(kind.input_ports()[i as int] == handle);
            return true;
        }
        i += 1;
    }
    false
}

} // verus!
