//! Passing the schemas of output ports on to the input ports that they are connected to.

use std::collections::HashMap;
use vstd::prelude::*;
use vstd::std_specs::hash::group_hash_axioms;

use crate::dag::EdgeType as DagEdgeType;
use crate::dag_schemas::EdgeType;
use crate::errors::ExecutionError;
use crate::graph::{topological_walk, Graph};
use crate::node::{FactoryError, NodeKind, NodeType, OutputPortDef, PortHandle};
use crate::reach::{
    is_topological_order, lemma_precedes_in_order, lemma_reaches_self, lists_arcs_from,
    lists_arcs_into, precedes,
};
use crate::types::Schema;

verus! {

/// What has been passed on so far: for each edge what its source's factory put on it, and for
/// each node what its factory was handed.
#[verifier::reject_recursive_types(T)]
pub struct Population<T> {
    pub edges: Seq<Option<(EdgeType, T)>>,
    pub inputs: Seq<Map<PortHandle, (Schema, T)>>,
}

/// The edge at `i` ends at the node.
pub open spec fn edge_enters<T>(
    graph: Graph<NodeType<T>, DagEdgeType>,
    i: int,
    node: int,
) -> bool {
    0 <= i < graph.arcs().len() && graph.arcs()[i].1 == node
}

/// The edge at `i` starts at the node.
pub open spec fn edge_leaves<T>(
    graph: Graph<NodeType<T>, DagEdgeType>,
    i: int,
    node: int,
) -> bool {
    0 <= i < graph.arcs().len() && graph.arcs()[i].0 == node
}

/// The edge at `i` ends at an input port of the node.
pub open spec fn edge_feeds<T>(
    graph: Graph<NodeType<T>, DagEdgeType>,
    i: int,
    node: int,
    port: PortHandle,
) -> bool {
    edge_enters(graph, i, node) && graph.edges()[i].to == port
}

/// Some edge ends at an input port of the node.
pub open spec fn port_is_fed<T>(
    graph: Graph<NodeType<T>, DagEdgeType>,
    node: int,
    port: PortHandle,
) -> bool {
    exists|i: int| #[trigger] edge_feeds(graph, i, node, port)
}

/// Two edges end at an input port of the node.
pub open spec fn port_is_fed_twice<T>(
    graph: Graph<NodeType<T>, DagEdgeType>,
    node: int,
    port: PortHandle,
) -> bool {
    exists|i: int, j: int|
        i != j && #[trigger] edge_feeds(graph, i, node, port) && #[trigger] edge_feeds(
            graph,
            j,
            node,
            port,
        )
}

/// The edge at `i` ends at an input port of the node, and so does a later edge.
pub open spec fn edge_repeats<T>(
    graph: Graph<NodeType<T>, DagEdgeType>,
    i: int,
    node: int,
    port: PortHandle,
) -> bool {
    &&& edge_feeds(graph, i, node, port)
    &&& exists|j: int| i < j && #[trigger] edge_feeds(graph, j, node, port)
}

/// The input port of the node that is the first to be found fed twice, when the edges are looked
/// at from the last one on.
pub open spec fn is_duplicate_input<T>(
    graph: Graph<NodeType<T>, DagEdgeType>,
    node: int,
    port: PortHandle,
) -> bool {
    exists|i: int| #[trigger]
        edge_repeats(graph, i, node, port) && forall|j: int, p: PortHandle| #[trigger]
            edge_repeats(graph, j, node, p) ==> j <= i
}

/// The first of some input ports of the node that is not fed.
pub open spec fn is_missing_input<T>(
    graph: Graph<NodeType<T>, DagEdgeType>,
    node: int,
    ports: Seq<PortHandle>,
    port: PortHandle,
) -> bool {
    exists|k: int|
        0 <= k < ports.len() && #[trigger] ports[k] == port && !port_is_fed(graph, node, port)
            && forall|j: int| 0 <= j < k ==> port_is_fed(graph, node, #[trigger] ports[j])
}

/// No input port of the node is fed twice, and every one that its factory lists is fed.
pub open spec fn inputs_are_complete<T>(graph: Graph<NodeType<T>, DagEdgeType>, node: int) -> bool {
    &&& forall|port: PortHandle| !#[trigger] port_is_fed_twice(graph, node, port)
    &&& forall|port: PortHandle|
        graph.nodes()[node].kind.input_ports().contains(port) ==> #[trigger] port_is_fed(
            graph,
            node,
            port,
        )
}

/// `inputs` holds, for each input port of the node that is fed, the schema and a clone of the
/// context of the edge that feeds it, and nothing else.
pub open spec fn inputs_are_gathered<T: Clone>(
    graph: Graph<NodeType<T>, DagEdgeType>,
    edges: Seq<Option<(EdgeType, T)>>,
    node: int,
    inputs: Map<PortHandle, (Schema, T)>,
) -> bool {
    &&& forall|port: PortHandle| #[trigger]
        inputs.contains_key(port) <==> port_is_fed(graph, node, port)
    &&& forall|i: int, port: PortHandle| #[trigger]
        edge_feeds(graph, i, node, port) ==> {
            &&& edges[i] is Some
            &&& inputs[port].0@ == edges[i]->Some_0.0.schema@
            &&& cloned(edges[i]->Some_0.1, inputs[port].1)
        }
}

/// The port at `i` is the first one of this name.
pub open spec fn is_first_port(ports: Seq<OutputPortDef>, handle: PortHandle, i: int) -> bool {
    &&& 0 <= i < ports.len()
    &&& ports[i].handle == handle
    &&& forall|j: int| 0 <= j < i ==> (#[trigger] ports[j]).handle != handle
}

/// What the factory of a node may return when it is asked for the schema of an output port.
pub open spec fn node_may_output<T>(
    kind: NodeKind<T>,
    port: PortHandle,
    inputs: Map<PortHandle, (Schema, T)>,
    result: Result<(Schema, T), FactoryError>,
) -> bool {
    match kind {
        NodeKind::Source(source) => source.may_output(port, result),
        NodeKind::Processor(processor) => processor.may_output(port, inputs, result),
        NodeKind::Sink(_) => false,
    }
}

/// The edge at `i` has the ports of the pipeline's edge, the type of its output port, and the
/// schema and the context that the factory of its source gave for that port.
pub open spec fn edge_is_made<T>(
    graph: Graph<NodeType<T>, DagEdgeType>,
    edges: Seq<Option<(EdgeType, T)>>,
    i: int,
    inputs: Map<PortHandle, (Schema, T)>,
) -> bool {
    let kind = graph.nodes()[graph.arcs()[i].0 as int].kind;
    let handle = graph.edges()[i].from;
    &&& edges[i] is Some
    &&& ({
        let (edge, context) = edges[i]->Some_0;
        &&& edge.output_port == handle
        &&& edge.input_port == graph.edges()[i].to
        &&& exists|k: int| #[trigger]
            is_first_port(kind.output_ports(), handle, k) && edge.output_port_type
                == kind.output_ports()[k].typ
        &&& node_may_output(kind, handle, inputs, Ok((edge.schema, context)))
    })
}

/// The factory of the node has been handed `inputs`, which hold the schemas of all its inputs and
/// are complete, and has given those of all its outgoing edges; a sink has been prepared.
pub open spec fn node_is_populated_from<T: Clone>(
    graph: Graph<NodeType<T>, DagEdgeType>,
    edges: Seq<Option<(EdgeType, T)>>,
    inputs: Map<PortHandle, (Schema, T)>,
    node: int,
) -> bool {
    let kind = graph.nodes()[node].kind;
    &&& kind is Source || {
        &&& inputs_are_complete(graph, node)
        &&& inputs_are_gathered(graph, edges, node, inputs)
    }
    &&& forall|i: int| #[trigger]
        edge_leaves(graph, i, node) ==> edge_is_made(graph, edges, i, inputs)
    &&& kind matches NodeKind::Sink(sink) ==> sink.may_prepare(inputs, None)
}

/// The node is populated from its inputs.
pub open spec fn node_is_populated<T: Clone>(
    graph: Graph<NodeType<T>, DagEdgeType>,
    population: Population<T>,
    node: int,
) -> bool {
    node_is_populated_from(graph, population.edges, population.inputs[node], node)
}

/// There is an entry for every edge and every node.
pub open spec fn population_fits<T>(
    graph: Graph<NodeType<T>, DagEdgeType>,
    population: Population<T>,
) -> bool {
    &&& population.edges.len() == graph.edges().len()
    &&& population.inputs.len() == graph.nodes().len()
}

/// Every node is populated.
pub open spec fn is_populated<T: Clone>(
    graph: Graph<NodeType<T>, DagEdgeType>,
    population: Population<T>,
) -> bool {
    &&& population_fits(graph, population)
    &&& forall|node: int|
        0 <= node < graph.nodes().len() ==> #[trigger] node_is_populated(graph, population, node)
}

/// `schemas` are the edges of the population, without their contexts.
pub open spec fn holds_edges_of<T>(schemas: Seq<EdgeType>, population: Population<T>) -> bool {
    &&& schemas.len() == population.edges.len()
    &&& forall|i: int|
        0 <= i < schemas.len() ==> population.edges[i] is Some && #[trigger] schemas[i]
            == population.edges[i]->Some_0.0
}

/// `populated` is the pipeline `graph` with the edges of some population of it.
pub open spec fn is_populated_graph<T: Clone>(
    graph: Graph<NodeType<T>, DagEdgeType>,
    populated: Graph<NodeType<T>, EdgeType>,
) -> bool {
    &&& populated.wf()
    &&& populated.nodes() == graph.nodes()
    &&& populated.arcs() == graph.arcs()
    &&& exists|population: Population<T>| #[trigger]
        is_populated(graph, population) && holds_edges_of(populated.edges(), population)
}

/// The factory of the node fails when it is asked for the schema of the edge at `i`, after it has
/// given those of the later edges that start at the node.
pub open spec fn output_fails<T>(
    graph: Graph<NodeType<T>, DagEdgeType>,
    edges: Seq<Option<(EdgeType, T)>>,
    inputs: Map<PortHandle, (Schema, T)>,
    i: int,
    node: int,
    error: FactoryError,
) -> bool {
    &&& edge_leaves(graph, i, node)
    &&& node_may_output(graph.nodes()[node].kind, graph.edges()[i].from, inputs, Err(error))
    &&& forall|j: int|
        i < j && #[trigger] edge_leaves(graph, j, node) ==> edge_is_made(graph, edges, j, inputs)
}

/// The factory of the node fails when it is asked for the schema of one of its edges.
pub open spec fn some_output_fails<T>(
    graph: Graph<NodeType<T>, DagEdgeType>,
    edges: Seq<Option<(EdgeType, T)>>,
    inputs: Map<PortHandle, (Schema, T)>,
    node: int,
    error: FactoryError,
) -> bool {
    exists|i: int| #[trigger] output_fails(graph, edges, inputs, i, node, error)
}

/// The factory of the node fails on the inputs that it is handed.
pub open spec fn factory_fails<T: Clone>(
    graph: Graph<NodeType<T>, DagEdgeType>,
    edges: Seq<Option<(EdgeType, T)>>,
    inputs: Map<PortHandle, (Schema, T)>,
    node: int,
    error: FactoryError,
) -> bool {
    let kind = graph.nodes()[node].kind;
    &&& kind is Source || {
        &&& inputs_are_complete(graph, node)
        &&& inputs_are_gathered(graph, edges, node, inputs)
    }
    &&& match kind {
        NodeKind::Sink(sink) => sink.may_prepare(inputs, Some(error)),
        _ => some_output_fails(graph, edges, inputs, node, error),
    }
}

/// The node fails in the way that the error says: an input port is fed twice, or none is and one
/// that its factory lists is not fed, or its factory fails.
pub open spec fn node_fails<T: Clone>(
    graph: Graph<NodeType<T>, DagEdgeType>,
    edges: Seq<Option<(EdgeType, T)>>,
    inputs: Map<PortHandle, (Schema, T)>,
    node: int,
    error: ExecutionError,
) -> bool {
    let kind = graph.nodes()[node].kind;
    match error {
        ExecutionError::DuplicateInput { node: handle, port } => {
            &&& !(kind is Source)
            &&& handle == graph.nodes()[node].handle
            &&& is_duplicate_input(graph, node, port)
        },
        ExecutionError::MissingInput { node: handle, port } => {
            &&& !(kind is Source)
            &&& handle == graph.nodes()[node].handle
            &&& forall|p: PortHandle| !#[trigger] port_is_fed_twice(graph, node, p)
            &&& is_missing_input(graph, node, kind.input_ports(), port)
        },
        ExecutionError::Factory(error) => factory_fails(graph, edges, inputs, node, error),
        _ => false,
    }
}

/// The walk is in topological order, and all nodes that it comes to before the node are populated.
pub open spec fn walk_is_populated<T: Clone>(
    graph: Graph<NodeType<T>, DagEdgeType>,
    population: Population<T>,
    node: int,
) -> bool {
    let walk = topological_walk(graph.arcs(), graph.nodes().len());
    &&& is_topological_order(graph.arcs(), graph.nodes().len(), walk)
    &&& exists|k: int|
        0 <= k < walk.len() && #[trigger] walk[k] == node && forall|j: int|
            0 <= j < k ==> node_is_populated(graph, population, #[trigger] walk[j] as int)
}

/// The node fails in the way that the error says, after all nodes that are walked before it have
/// been populated, among them all that precede it.
pub open spec fn population_stops<T: Clone>(
    graph: Graph<NodeType<T>, DagEdgeType>,
    population: Population<T>,
    node: int,
    error: ExecutionError,
) -> bool {
    &&& 0 <= node < graph.nodes().len()
    &&& population_fits(graph, population)
    &&& walk_is_populated(graph, population, node)
    &&& forall|m: usize| #[trigger]
        precedes(graph.arcs(), m, node as usize) ==> node_is_populated(
            graph,
            population,
            m as int,
        )
    &&& node_fails(graph, population.edges, population.inputs[node], node, error)
}

/// Every edge starts at an output port that its source has.
pub open spec fn edges_leave_ports<T>(graph: Graph<NodeType<T>, DagEdgeType>) -> bool {
    forall|i: int|
        0 <= i < graph.edges().len() ==> graph.nodes()[(#[trigger] graph.arcs()[i]).0 as int]
            .kind.has_output_port(graph.edges()[i].from)
}

/// The first output port of this name.
pub fn find_output_port_def<'a>(ports: &'a Vec<OutputPortDef>, handle: PortHandle) -> (port:
    &'a OutputPortDef)
    requires
        exists|i: int| 0 <= i < ports@.len() && (#[trigger] ports@[i]).handle == handle,
    ensures
        exists|i: int| #[trigger] is_first_port(ports@, handle, i) && *port == ports@[i],
{
    let mut i: usize = 0;
    while ports[i].handle != handle
        invariant
            exists|j: int| i <= j < ports@.len() && (#[trigger] ports@[j]).handle == handle,
            forall|j: int| 0 <= j < i ==> (#[trigger] ports@[j]).handle != handle,
        decreases ports.len() - i,
    {
        i += 1;
    }
    assert(is_first_port(ports@, handle, i as int));
    &ports[i]
}

/// Puts an edge at its place.
pub fn create_edge<T>(
    edges: &mut Vec<Option<(EdgeType, T)>>,
    index: usize,
    edge: &DagEdgeType,
    port: &OutputPortDef,
    schema: Schema,
    ctx: T,
)
    requires
        index < old(edges)@.len(),
        old(edges)@[index as int] is None,
        port.handle == edge.from,
    ensures
        final(edges)@ == old(edges)@.update(
            index as int,
            Some(
                (
                    EdgeType {
                        output_port: port.handle,
                        output_port_type: port.typ,
                        input_port: edge.to,
                        schema,
                    },
                    ctx,
                ),
            ),
        ),
{
    edges[index] = Some((EdgeType::new(port.handle, port.typ, edge.to, schema), ctx));
}

/// The port that is found to be fed twice is.
pub proof fn lemma_duplicate_input_is_fed_twice<T>(
    graph: Graph<NodeType<T>, DagEdgeType>,
    node: int,
    port: PortHandle,
)
    requires
        is_duplicate_input(graph, node, port),
    ensures
        port_is_fed_twice(graph, node, port),
{
    let i = choose|i: int| #[trigger] edge_repeats(graph, i, node, port);
    let j = choose|j: int| i < j && #[trigger] edge_feeds(graph, j, node, port);
    assert(edge_feeds(graph, i, node, port));
}

/// Where an edge that ends at the node is listed.
proof fn lemma_listed<T>(
    graph: Graph<NodeType<T>, DagEdgeType>,
    node: usize,
    found: Seq<(usize, usize)>,
    i: int,
) -> (j: int)
    requires
        graph.wf(),
        lists_arcs_into(graph.arcs(), node, found),
        edge_enters(graph, i, node as int),
    ensures
        0 <= j < found.len(),
        found[j].0 == i,
{
    let edge = (i as usize, graph.arcs()[i].0);
    assert(graph.arcs()[i] == (edge.1, node));
    assert(found.contains((edge.0, edge.1)));
    choose|j: int| 0 <= j < found.len() && found[j] == edge
}

/// Gathers the schemas and contexts of the edges into a node. Fails where two edges end at one
/// port, or else where none ends at a port that is listed.
pub fn validate_input_schemas<T: Clone>(
    dag: &Graph<NodeType<T>, DagEdgeType>,
    edge_and_contexts: &Vec<Option<(EdgeType, T)>>,
    node_index: usize,
    input_ports: Vec<PortHandle>,
) -> (result: Result<HashMap<PortHandle, (Schema, T)>, ExecutionError>)
    requires
        dag.wf(),
        node_index < dag.nodes().len(),
        edge_and_contexts@.len() == dag.edges().len(),
        forall|i: int| #[trigger]
            edge_enters(*dag, i, node_index as int) ==> edge_and_contexts@[i] is Some,
    ensures
        match result {
            Ok(inputs) => {
                &&& forall|port: PortHandle| !#[trigger] port_is_fed_twice(
                    *dag,
                    node_index as int,
                    port,
                )
                &&& forall|port: PortHandle|
                    input_ports@.contains(port) ==> #[trigger] port_is_fed(
                        *dag,
                        node_index as int,
                        port,
                    )
                &&& inputs_are_gathered(*dag, edge_and_contexts@, node_index as int, inputs@)
            },
            Err(ExecutionError::DuplicateInput { node, port }) => {
                &&& node == dag.nodes()[node_index as int].handle
                &&& is_duplicate_input(*dag, node_index as int, port)
            },
            Err(ExecutionError::MissingInput { node, port }) => {
                &&& node == dag.nodes()[node_index as int].handle
                &&& forall|p: PortHandle| !#[trigger] port_is_fed_twice(
                    *dag,
                    node_index as int,
                    p,
                )
                &&& is_missing_input(*dag, node_index as int, input_ports@, port)
            },
            Err(_) => false,
        },
{
    broadcast use group_hash_axioms;

    let ghost g = *dag;
    let ghost n = node_index as int;
    let node_handle = &dag.node(node_index).handle;
    let incoming = dag.edges_into(node_index);
    let mut input_schemas: HashMap<PortHandle, (Schema, T)> = HashMap::new();
    let mut k: usize = 0;
    while k < incoming.len()
        invariant
            g == *dag,
            n == node_index,
            g.wf(),
            node_index < g.nodes().len(),
            *node_handle == g.nodes()[n].handle,
            edge_and_contexts@.len() == g.edges().len(),
            forall|i: int| #[trigger]
                edge_enters(g, i, n) ==> edge_and_contexts@[i] is Some,
            lists_arcs_into(g.arcs(), node_index, incoming@),
            k <= incoming.len(),
            forall|port: PortHandle| #[trigger]
                input_schemas@.contains_key(port) <==> exists|j: int|
                    0 <= j < k && g.edges()[(#[trigger] incoming@[j]).0 as int].to == port,
            forall|j: int| 0 <= j < k ==> {
                let (i, _) = #[trigger] incoming@[j];
                let port = g.edges()[i as int].to;
                &&& input_schemas@[port].0@ == edge_and_contexts@[i as int]->Some_0.0.schema@
                &&& cloned(edge_and_contexts@[i as int]->Some_0.1, input_schemas@[port].1)
            },
            forall|j: int, j2: int|
                0 <= j < j2 < k ==> g.edges()[(#[trigger] incoming@[j]).0 as int].to
                    != g.edges()[(#[trigger] incoming@[j2]).0 as int].to,
        decreases incoming.len() - k,
    {
        let (index, _source) = incoming[k];
        assert(incoming@.contains((incoming@[k as int].0, incoming@[k as int].1)));
        assert(edge_enters(g, index as int, n));
        let port_handle: PortHandle = dag.edge(index).to;
        let (edge, context) = edge_and_contexts[index].as_ref().unwrap();
        let value = (edge.schema.clone(), context.clone());
        let replaced = input_schemas.insert(port_handle, value);
        if replaced.is_some() {
            proof {
                let j = choose|j: int|
                    0 <= j < k && g.edges()[(#[trigger] incoming@[j]).0 as int].to == port_handle;
                let other = incoming@[j].0;
                assert(incoming@.contains((incoming@[j].0, incoming@[j].1)));
                assert(other > index);
                assert(edge_feeds(g, other as int, n, port_handle));
                assert(edge_repeats(g, index as int, n, port_handle));
                assert forall|i: int, p: PortHandle| #[trigger]
                    edge_repeats(g, i, n, p) implies i <= index by {
                    if i > index {
                        let i2 = choose|i2: int| i < i2 && #[trigger] edge_feeds(g, i2, n, p);
                        let a = lemma_listed(g, node_index, incoming@, i);
                        let b = lemma_listed(g, node_index, incoming@, i2);
                        assert(b < a < k);
                    }
                }
            }
            return Err(
                ExecutionError::DuplicateInput { node: node_handle.clone(), port: port_handle },
            );
        }
        k += 1;
    }
    proof {
        assert forall|i: int, port: PortHandle| #[trigger]
            edge_feeds(g, i, n, port) implies exists|j: int|
            0 <= j < k && (#[trigger] incoming@[j]).0 == i by {
            let j = lemma_listed(g, node_index, incoming@, i);
            assert(incoming@[j].0 == i);
        }
        assert forall|port: PortHandle| !#[trigger] port_is_fed_twice(g, n, port) by {
            if port_is_fed_twice(g, n, port) {
                let (a, b) = choose|a: int, b: int|
                    a != b && #[trigger] edge_feeds(g, a, n, port) && #[trigger] edge_feeds(
                        g,
                        b,
                        n,
                        port,
                    );
                let ja = choose|j: int| 0 <= j < k && (#[trigger] incoming@[j]).0 == a;
                let jb = choose|j: int| 0 <= j < k && (#[trigger] incoming@[j]).0 == b;
                assert(ja < jb || jb < ja);
            }
        }
        assert forall|port: PortHandle| #[trigger]
            input_schemas@.contains_key(port) <==> port_is_fed(g, n, port) by {
            if input_schemas@.contains_key(port) {
                let j = choose|j: int|
                    0 <= j < k && g.edges()[(#[trigger] incoming@[j]).0 as int].to == port;
                assert(incoming@.contains((incoming@[j].0, incoming@[j].1)));
                assert(edge_feeds(g, incoming@[j].0 as int, n, port));
            }
            if port_is_fed(g, n, port) {
                let i = choose|i: int| #[trigger] edge_feeds(g, i, n, port);
                let j = choose|j: int| 0 <= j < k && (#[trigger] incoming@[j]).0 == i;
                assert(g.edges()[incoming@[j].0 as int].to == port);
            }
        }
        assert(inputs_are_gathered(g, edge_and_contexts@, n, input_schemas@)) by {
            assert forall|i: int, port: PortHandle| #[trigger]
                edge_feeds(g, i, n, port) implies {
                &&& edge_and_contexts@[i] is Some
                &&& input_schemas@[port].0@ == edge_and_contexts@[i]->Some_0.0.schema@
                &&& cloned(edge_and_contexts@[i]->Some_0.1, input_schemas@[port].1)
            } by {
                assert(edge_enters(g, i, n));
                let j = choose|j: int| 0 <= j < k && (#[trigger] incoming@[j]).0 == i;
                assert(g.edges()[incoming@[j].0 as int].to == port);
            }
        }
    }

    let mut k: usize = 0;
    while k < input_ports.len()
        invariant
            g == *dag,
            n == node_index,
            *node_handle == g.nodes()[n].handle,
            k <= input_ports.len(),
            forall|port: PortHandle| !#[trigger] port_is_fed_twice(g, n, port),
            forall|port: PortHandle| #[trigger]
                input_schemas@.contains_key(port) <==> port_is_fed(g, n, port),
            forall|j: int| 0 <= j < k ==> port_is_fed(g, n, #[trigger] input_ports@[j]),
        decreases input_ports.len() - k,
    {
        let port: PortHandle = input_ports[k];
        if !input_schemas.contains_key(&port) {
            return Err(ExecutionError::MissingInput { node: node_handle.clone(), port });
        }
        k += 1;
    }
    Ok(input_schemas)
}

/// Asks the factory of a source or a processor for the schemas of its outgoing edges and puts
/// them at their places. Fails where the factory does.
fn populate_outgoing_edges<T: Clone>(
    dag: &Graph<NodeType<T>, DagEdgeType>,
    node_index: usize,
    input_schemas: &HashMap<PortHandle, (Schema, T)>,
    edges: &mut Vec<Option<(EdgeType, T)>>,
) -> (result: Result<(), FactoryError>)
    requires
        dag.wf(),
        edges_leave_ports(*dag),
        node_index < dag.nodes().len(),
        !(dag.nodes()[node_index as int].kind is Sink),
        old(edges)@.len() == dag.edges().len(),
        forall|i: int| #[trigger]
            edge_leaves(*dag, i, node_index as int) ==> old(edges)@[i] is None,
    ensures
        final(edges)@.len() == old(edges)@.len(),
        forall|i: int|
            0 <= i < old(edges)@.len() && !edge_leaves(*dag, i, node_index as int)
                ==> #[trigger] final(edges)@[i] == old(edges)@[i],
        result is Ok ==> forall|i: int| #[trigger]
            edge_leaves(*dag, i, node_index as int) ==> edge_is_made(
                *dag,
                final(edges)@,
                i,
                input_schemas@,
            ),
        result matches Err(error) ==> some_output_fails(
            *dag,
            final(edges)@,
            input_schemas@,
            node_index as int,
            error,
        ),
{
    let ghost g = *dag;
    let ghost n = node_index as int;
    let kind = &dag.node(node_index).kind;
    let ports = match kind {
        NodeKind::Source(source) => source.get_output_ports(),
        NodeKind::Processor(processor) => processor.get_output_ports(),
        NodeKind::Sink(_) => Vec::new(),
    };
    let outgoing = dag.edges_from(node_index);
    assert forall|j: int| 0 <= j < outgoing@.len() implies edge_leaves(
        g,
        #[trigger] outgoing@[j] as int,
        n,
    ) by {
        assert(outgoing@.contains(outgoing@[j]));
    }
    let mut k: usize = 0;
    while k < outgoing.len()
        invariant
            g == *dag,
            n == node_index,
            g.wf(),
            edges_leave_ports(g),
            node_index < g.nodes().len(),
            *kind == g.nodes()[n].kind,
            !(*kind is Sink),
            ports@ == kind.output_ports(),
            lists_arcs_from(g.arcs(), node_index, outgoing@),
            forall|j: int|
                0 <= j < outgoing@.len() ==> edge_leaves(g, #[trigger] outgoing@[j] as int, n),
            k <= outgoing.len(),
            edges@.len() == g.edges().len(),
            edges@.len() == old(edges)@.len(),
            forall|i: int|
                0 <= i < old(edges)@.len() && !edge_leaves(g, i, n) ==> #[trigger] edges@[i]
                    == old(edges)@[i],
            forall|j: int|
                0 <= j < k ==> edge_is_made(
                    g,
                    edges@,
                    #[trigger] outgoing@[j] as int,
                    input_schemas@,
                ),
            forall|j: int|
                k <= j < outgoing@.len() ==> edges@[#[trigger] outgoing@[j] as int] is None,
        decreases outgoing.len() - k,
    {
        let index: usize = outgoing[k];
        assert(edge_leaves(g, outgoing@[k as int] as int, n));
        let edge = dag.edge(index);
        assert(kind.has_output_port(edge.from)) by {
            assert(g.arcs()[index as int].0 == n);
        }
        let port = find_output_port_def(&ports, edge.from);
        let output = match kind {
            NodeKind::Source(source) => source.get_output_schema(&port.handle),
            NodeKind::Processor(processor) => processor.get_output_schema(
                &port.handle,
                input_schemas,
            ),
            NodeKind::Sink(_) => {
                assert(false);
                return Ok(());
            },
        };
        let (schema, ctx) = match output {
            Ok(output) => output,
            Err(error) => {
                proof {
                    assert forall|i: int|
                        index < i && #[trigger] edge_leaves(g, i, n) implies edge_is_made(
                        g,
                        edges@,
                        i,
                        input_schemas@,
                    ) by {
                        assert(outgoing@.contains(i as usize));
                        let j = choose|j: int|
                            0 <= j < outgoing@.len() && outgoing@[j] == i as usize;
                        assert(j < k);
                    }
                    assert(output_fails(g, edges@, input_schemas@, index as int, n, error));
                }
                return Err(error);
            },
        };
        let ghost before = edges@;
        create_edge(edges, index, edge, port, schema, ctx);
        assert(edge_is_made(g, edges@, index as int, input_schemas@));
        assert forall|j: int| 0 <= j < k implies edge_is_made(
            g,
            edges@,
            #[trigger] outgoing@[j] as int,
            input_schemas@,
        ) by {
            assert(outgoing@[j] != outgoing@[k as int]);
            assert(edge_is_made(g, before, outgoing@[j] as int, input_schemas@));
            assert(edges@[outgoing@[j] as int] == before[outgoing@[j] as int]);
        }
        k += 1;
    }
    assert forall|i: int| #[trigger] edge_leaves(g, i, n) implies edge_is_made(
        g,
        edges@,
        i,
        input_schemas@,
    ) by {
        assert(outgoing@.contains(i as usize));
        let j = choose|j: int| 0 <= j < outgoing@.len() && outgoing@[j] == i as usize;
        assert(edge_is_made(g, edges@, outgoing@[j] as int, input_schemas@));
    }
    Ok(())
}

/// No edge of an acyclic graph starts where it ends.
proof fn lemma_no_loop<T>(graph: Graph<NodeType<T>, DagEdgeType>, i: int)
    requires
        graph.wf(),
        0 <= i < graph.arcs().len(),
    ensures
        graph.arcs()[i].0 != graph.arcs()[i].1,
{
    let (a, b) = graph.arcs()[i];
    assert(graph.arcs().contains((a, b)));
    lemma_reaches_self(graph.arcs(), a);
}

/// Whether a node is populated depends on the edges that start or end at it alone.
proof fn lemma_populated_where_edges_agree<T: Clone>(
    graph: Graph<NodeType<T>, DagEdgeType>,
    before: Seq<Option<(EdgeType, T)>>,
    after: Seq<Option<(EdgeType, T)>>,
    inputs: Map<PortHandle, (Schema, T)>,
    node: int,
)
    requires
        node_is_populated_from(graph, before, inputs, node),
        forall|i: int| #[trigger] edge_enters(graph, i, node) ==> after[i] == before[i],
        forall|i: int| #[trigger] edge_leaves(graph, i, node) ==> after[i] == before[i],
    ensures
        node_is_populated_from(graph, after, inputs, node),
{
    if !(graph.nodes()[node].kind is Source) {
        assert forall|i: int, port: PortHandle| #[trigger]
            edge_feeds(graph, i, node, port) implies {
            &&& after[i] is Some
            &&& inputs[port].0@ == after[i]->Some_0.0.schema@
            &&& cloned(after[i]->Some_0.1, inputs[port].1)
        } by {
            assert(edge_enters(graph, i, node));
        }
    }
    assert forall|i: int| #[trigger] edge_leaves(graph, i, node) implies edge_is_made(
        graph,
        after,
        i,
        inputs,
    ) by {
        assert(edge_is_made(graph, before, i, inputs));
    }
}

/// Hands the factory of a node its inputs and passes its output schemas on. Gives back the
/// inputs.
fn populate_node<T: Clone>(
    dag: &Graph<NodeType<T>, DagEdgeType>,
    node_index: usize,
    edges: &mut Vec<Option<(EdgeType, T)>>,
) -> (result: Result<Ghost<Map<PortHandle, (Schema, T)>>, ExecutionError>)
    requires
        dag.wf(),
        edges_leave_ports(*dag),
        node_index < dag.nodes().len(),
        old(edges)@.len() == dag.edges().len(),
        forall|i: int| #[trigger]
            edge_enters(*dag, i, node_index as int) ==> old(edges)@[i] is Some,
        forall|i: int| #[trigger]
            edge_leaves(*dag, i, node_index as int) ==> old(edges)@[i] is None,
    ensures
        final(edges)@.len() == old(edges)@.len(),
        forall|i: int|
            0 <= i < old(edges)@.len() && !edge_leaves(*dag, i, node_index as int)
                ==> #[trigger] final(edges)@[i] == old(edges)@[i],
        match result {
            Ok(inputs) => node_is_populated_from(
                *dag,
                final(edges)@,
                inputs@,
                node_index as int,
            ),
            Err(error) => exists|inputs: Map<PortHandle, (Schema, T)>| #[trigger]
                node_fails(*dag, final(edges)@, inputs, node_index as int, error),
        },
{
    let ghost g = *dag;
    let ghost n = node_index as int;
    let kind = &dag.node(node_index).kind;
    let input_ports = match kind {
        NodeKind::Source(_) => Vec::new(),
        NodeKind::Processor(processor) => processor.get_input_ports(),
        NodeKind::Sink(sink) => sink.get_input_ports(),
    };
    let input_schemas = match kind {
        NodeKind::Source(_) => HashMap::new(),
        _ => match validate_input_schemas(dag, edges, node_index, input_ports) {
            Ok(input_schemas) => input_schemas,
            Err(error) => {
                assert(node_fails(g, edges@, Map::empty(), n, error));
                return Err(error);
            },
        },
    };
    let ghost inputs = input_schemas@;
    if let NodeKind::Sink(sink) = kind {
        assert forall|i: int| !#[trigger] edge_leaves(g, i, n) by {
            if edge_leaves(g, i, n) {
                assert(g.nodes()[g.arcs()[i].0 as int].kind.has_output_port(g.edges()[i].from));
            }
        }
        return match sink.prepare(input_schemas) {
            Ok(()) => Ok(Ghost(inputs)),
            Err(error) => {
                assert(node_fails(g, edges@, inputs, n, ExecutionError::Factory(error)));
                Err(ExecutionError::Factory(error))
            },
        };
    }
    let result = populate_outgoing_edges(dag, node_index, &input_schemas, edges);
    proof {
        if !(*kind is Source) {
            assert forall|i: int, port: PortHandle| #[trigger]
                edge_feeds(g, i, n, port) implies {
                &&& edges@[i] is Some
                &&& inputs[port].0@ == edges@[i]->Some_0.0.schema@
                &&& cloned(edges@[i]->Some_0.1, inputs[port].1)
            } by {
                lemma_no_loop(g, i);
                assert(edges@[i] == old(edges)@[i]);
            }
            assert(inputs_are_gathered(g, edges@, n, inputs));
        }
    }
    match result {
        Ok(()) => Ok(Ghost(inputs)),
        Err(error) => {
            assert(node_fails(g, edges@, inputs, n, ExecutionError::Factory(error)));
            Err(ExecutionError::Factory(error))
        },
    }
}

/// Goes on from the edges of one population to those of the next, where only edges that start at
/// the node at `k` of the order have changed: the nodes before it stay populated.
proof fn lemma_order_stays_populated<T: Clone>(
    graph: Graph<NodeType<T>, DagEdgeType>,
    order: Seq<usize>,
    k: int,
    before: Population<T>,
    after: Population<T>,
)
    requires
        graph.wf(),
        is_topological_order(graph.arcs(), graph.nodes().len(), order),
        0 <= k < order.len(),
        population_fits(graph, before),
        population_fits(graph, after),
        forall|j: int| 0 <= j < k ==> node_is_populated(graph, before, #[trigger] order[j] as int),
        forall|i: int|
            0 <= i < before.edges.len() && !edge_leaves(graph, i, order[k] as int)
                ==> #[trigger] after.edges[i] == before.edges[i],
        forall|m: int|
            0 <= m < before.inputs.len() && m != order[k] ==> #[trigger] after.inputs[m]
                == before.inputs[m],
    ensures
        forall|j: int| 0 <= j < k ==> node_is_populated(graph, after, #[trigger] order[j] as int),
{
    assert forall|j: int| 0 <= j < k implies node_is_populated(
        graph,
        after,
        #[trigger] order[j] as int,
    ) by {
        let m = order[j] as int;
        assert(order[j] != order[k]);
        assert(order.contains(order[j]));
        assert forall|i: int| #[trigger] edge_enters(graph, i, m) implies after.edges[i]
            == before.edges[i] by {
            let (s, t) = graph.arcs()[i];
            assert(graph.arcs().contains((s, t)));
            if s == order[k] {
                assert(graph.arcs().contains((order[k], order[j])));
            }
        }
        assert(node_is_populated(graph, before, m));
        lemma_populated_where_edges_agree(
            graph,
            before.edges,
            after.edges,
            before.inputs[m],
            m,
        );
        assert(after.inputs[m] == before.inputs[m]);
    }
}

/// In topological order, passes the output schemas of the nodes on to the nodes downstream. The
/// nodes stay as they are, and so does which nodes the edges join.
pub fn populate_schemas<T: Clone>(dag: Graph<NodeType<T>, DagEdgeType>) -> (result: Result<
    Graph<NodeType<T>, EdgeType>,
    ExecutionError,
>)
    requires
        dag.wf(),
        edges_leave_ports(dag),
    ensures
        match result {
            Ok(populated) => is_populated_graph(dag, populated),
            Err(error) => exists|population: Population<T>, node: int| #[trigger]
                population_stops(dag, population, node, error),
        },
{
    let ghost g = dag;
    let mut edges: Vec<Option<(EdgeType, T)>> = Vec::new();
    while edges.len() < dag.edge_count()
        invariant
            g == dag,
            edges@.len() <= g.edges().len(),
            forall|i: int| 0 <= i < edges@.len() ==> #[trigger] edges@[i] is None,
        decreases g.edges().len() - edges@.len(),
    {
        edges.push(None);
    }

    let order = dag.topological_order();
    let ghost mut inputs: Seq<Map<PortHandle, (Schema, T)>> = Seq::new(
        g.nodes().len(),
        |i: int| Map::empty(),
    );
    let mut k: usize = 0;
    while k < order.len()
        invariant
            g == dag,
            g.wf(),
            edges_leave_ports(g),
            order@ == topological_walk(g.arcs(), g.nodes().len()),
            is_topological_order(g.arcs(), g.nodes().len(), order@),
            k <= order.len(),
            population_fits(g, Population { edges: edges@, inputs }),
            forall|j: int|
                0 <= j < k ==> node_is_populated(
                    g,
                    Population { edges: edges@, inputs },
                    #[trigger] order@[j] as int,
                ),
            forall|i: int, j: int|
                k <= j < order@.len() && #[trigger] edge_leaves(
                    g,
                    i,
                    #[trigger] order@[j] as int,
                ) ==> edges@[i] is None,
        decreases order.len() - k,
    {
        let node_index: usize = order[k];
        let ghost n = node_index as int;
        let ghost before = Population { edges: edges@, inputs };
        assert(order@.contains(node_index));
        assert forall|i: int| #[trigger] edge_enters(g, i, n) implies edges@[i] is Some by {
            let (s, t) = g.arcs()[i];
            assert(g.arcs()[i].0 < g.nodes().len());
            assert(order@.contains(s));
            let j = choose|j: int| 0 <= j < order@.len() && order@[j] == s;
            assert(g.arcs().contains((order@[j], order@[k as int])));
            assert(node_is_populated(g, before, order@[j] as int));
            assert(edge_leaves(g, i, s as int));
        }
        assert forall|i: int| #[trigger] edge_leaves(g, i, n) implies edges@[i] is None by {
            assert(edge_leaves(g, i, order@[k as int] as int));
        }
        match populate_node(&dag, node_index, &mut edges) {
            Ok(node_inputs) => {
                proof {
                    inputs = inputs.update(n, node_inputs@);
                    let after = Population { edges: edges@, inputs };
                    lemma_order_stays_populated(g, order@, k as int, before, after);
                    assert(node_is_populated(g, after, order@[k as int] as int));
                    assert forall|i: int, j: int|
                        k + 1 <= j < order@.len() && #[trigger] edge_leaves(
                            g,
                            i,
                            #[trigger] order@[j] as int,
                        ) implies edges@[i] is None by {
                        assert(order@[j] != order@[k as int]);
                        assert(before.edges[i] is None);
                    }
                }
            },
            Err(error) => {
                proof {
                    let node_inputs = choose|node_inputs: Map<PortHandle, (Schema, T)>| #[trigger]
                        node_fails(g, edges@, node_inputs, n, error);
                    let after = Population { edges: edges@, inputs: inputs.update(n, node_inputs) };
                    lemma_order_stays_populated(g, order@, k as int, before, after);
                    assert forall|m: usize| #[trigger]
                        precedes(g.arcs(), m, n as usize) implies node_is_populated(
                        g,
                        after,
                        m as int,
                    ) by {
                        lemma_precedes_in_order(
                            g.arcs(),
                            g.nodes().len(),
                            order@,
                            m,
                            k as int,
                        );
                        let j = choose|j: int| 0 <= j < k && order@[j] == m;
                        assert(node_is_populated(g, after, order@[j] as int));
                    }
                    assert(order@[k as int] == n);
                    assert(walk_is_populated(g, after, n));
                    assert(population_stops(g, after, n, error));
                }
                return Err(error);
            },
        }
        k += 1;
    }

    let ghost population = Population { edges: edges@, inputs };
    proof {
        assert forall|node: int| 0 <= node < g.nodes().len() implies #[trigger] node_is_populated(
            g,
            population,
            node,
        ) by {
            assert(order@.contains(node as usize));
            let j = choose|j: int| 0 <= j < order@.len() && order@[j] == node as usize;
            assert(node_is_populated(g, population, order@[j] as int));
        }
        assert forall|i: int| 0 <= i < edges@.len() implies #[trigger] edges@[i] is Some by {
            let s = g.arcs()[i].0 as int;
            assert(node_is_populated(g, population, s));
            assert(edge_leaves(g, i, s));
        }
    }
    let mut schemas: Vec<EdgeType> = Vec::new();
    let mut i: usize = 0;
    while i < edges.len()
        invariant
            i <= edges.len(),
            edges@.len() == population.edges.len(),
            schemas@.len() == i,
            forall|j: int| 0 <= j < edges@.len() ==> #[trigger] population.edges[j] is Some,
            forall|j: int| i <= j < edges@.len() ==> #[trigger] edges@[j] == population.edges[j],
            forall|j: int|
                0 <= j < i ==> #[trigger] schemas@[j] == population.edges[j]->Some_0.0,
        decreases edges.len() - i,
    {
        assert(population.edges[i as int] is Some);
        let (edge, _context) = edges[i].take().unwrap();
        schemas.push(edge);
        i += 1;
    }
    assert(holds_edges_of(schemas@, population));
    assert(is_populated(g, population));
    Ok(dag.with_edges(schemas))
}

} // verus!
