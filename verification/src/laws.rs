//! What holds of pipelines and their schemas as a whole.

use vstd::prelude::*;
use vstd::seq_lib::group_to_multiset_ensures;

use crate::connectivity::{
    connected_ports, edges_entering, input_is_connected, is_connected, lemma_edges_entering,
    output_is_connected,
};
use crate::dag::EdgeType as DagEdgeType;
use crate::dag_schemas::{
    are_input_schemas, edge_arrives, edge_arrives_first, has_default_input, is_sink, source_ids,
    EdgeType,
};
use crate::errors::ExecutionError;
use crate::graph::{topological_walk, Graph};
use crate::node::{FactoryError, NodeKind, NodeType, PortHandle, DEFAULT_PORT_HANDLE};
use crate::populate::{
    edge_feeds, edge_is_made, edge_leaves, factory_fails, holds_edges_of, inputs_are_complete,
    inputs_are_gathered, is_first_port, is_populated, is_populated_graph,
    lemma_duplicate_input_is_fed_twice, node_fails, node_is_populated, node_may_output,
    output_fails, population_stops, port_is_fed, port_is_fed_twice, Population,
};
use crate::reach::{
    ancestors, descendants, is_topological_order, lemma_arc_reaches, lemma_fewer_ancestors,
    lemma_fewer_descendants, lemma_precedes_by_last_arc, lemma_precedes_in_order,
    lemma_reaches_transitive, precedes, reaches,
};
use crate::types::Schema;

verus! {

/// An element that stands at two places of a sequence is counted twice.
proof fn lemma_two_places_count_twice<A>(s: Seq<A>, i: int, j: int)
    requires
        0 <= i < s.len(),
        0 <= j < s.len(),
        i != j,
        s[i] == s[j],
    ensures
        s.to_multiset().count(s[i]) >= 2,
{
    broadcast use group_to_multiset_ensures;

    let rest = s.remove(i);
    if j < i {
        assert(rest[j] == s[j]);
    } else {
        assert(rest[j - 1] == s[j]);
    }
    assert(rest.contains(s[i]));
    assert(rest.to_multiset().count(s[i]) > 0);
    assert(s.to_multiset().count(s[i]) > 0) by {
        assert(s.contains(s[i]));
    }
}

/// In a connected pipeline, every input port that the factory of a processor or a sink lists is
/// fed, and one that is fed twice is listed twice.
pub proof fn lemma_connected_inputs<T>(graph: Graph<NodeType<T>, DagEdgeType>, node: int)
    requires
        graph.wf(),
        is_connected(graph),
        0 <= node < graph.nodes().len(),
        !(graph.nodes()[node].kind is Source),
    ensures
        forall|port: PortHandle| #[trigger]
            graph.nodes()[node].kind.input_ports().contains(port) ==> port_is_fed(
                graph,
                node,
                port,
            ),
        forall|port: PortHandle| #[trigger]
            port_is_fed_twice(graph, node, port)
                ==> graph.nodes()[node].kind.input_ports().to_multiset().count(port) >= 2,
{
    broadcast use group_to_multiset_ensures;

    let listed = graph.nodes()[node].kind.input_ports();
    let entering = edges_entering(graph.arcs(), node);
    let connected = connected_ports(graph, node);
    assert(input_is_connected(graph, node));
    lemma_edges_entering(graph.arcs(), node);
    assert forall|port: PortHandle| #[trigger] listed.contains(port) implies port_is_fed(
        graph,
        node,
        port,
    ) by {
        assert(connected.to_multiset().count(port) > 0);
        assert(connected.contains(port));
        let k = choose|k: int| 0 <= k < connected.len() && connected[k] == port;
        assert(entering.contains(entering[k]));
        assert(edge_feeds(graph, entering[k], node, port));
    }
    assert forall|port: PortHandle| #[trigger] port_is_fed_twice(graph, node, port) implies listed
        .to_multiset().count(port) >= 2 by {
        let (i, j) = choose|i: int, j: int|
            i != j && #[trigger] edge_feeds(graph, i, node, port) && #[trigger] edge_feeds(
                graph,
                j,
                node,
                port,
            );
        assert(entering.contains(i) && entering.contains(j));
        let a = choose|a: int| 0 <= a < entering.len() && entering[a] == i;
        let b = choose|b: int| 0 <= b < entering.len() && entering[b] == j;
        assert(connected[a] == port && connected[b] == port);
        lemma_two_places_count_twice(connected, a, b);
    }
}

/// In a connected pipeline, a processor or a sink whose factory lists no input port twice has
/// complete inputs: exactly one edge ends at every input port.
pub proof fn law_connected_inputs_are_complete<T>(
    graph: Graph<NodeType<T>, DagEdgeType>,
    node: int,
)
    requires
        graph.wf(),
        is_connected(graph),
        0 <= node < graph.nodes().len(),
        !(graph.nodes()[node].kind is Source),
        graph.nodes()[node].kind.input_ports().no_duplicates(),
    ensures
        inputs_are_complete(graph, node),
{
    broadcast use group_to_multiset_ensures;

    lemma_connected_inputs(graph, node);
    graph.nodes()[node].kind.input_ports().lemma_multiset_has_no_duplicates();
}

/// In a connected pipeline, some source precedes every processor and every sink.
pub proof fn law_a_source_precedes_every_other_node<T>(
    graph: Graph<NodeType<T>, DagEdgeType>,
    node: usize,
)
    requires
        graph.wf(),
        is_connected(graph),
        node < graph.nodes().len(),
        !(graph.nodes()[node as int].kind is Source),
    ensures
        exists|m: usize| #[trigger]
            precedes(graph.arcs(), m, node) && m < graph.nodes().len()
                && graph.nodes()[m as int].kind is Source,
    decreases ancestors(graph.arcs(), graph.nodes().len(), node).len(),
{
    lemma_connected_inputs(graph, node as int);
    assert(input_is_connected(graph, node as int));
    let port = graph.nodes()[node as int].kind.input_ports()[0];
    assert(graph.nodes()[node as int].kind.input_ports().contains(port));
    let i = choose|i: int| #[trigger] edge_feeds(graph, i, node as int, port);
    let s = graph.arcs()[i].0;
    assert(graph.arcs()[i] == (s, node));
    assert(graph.arcs().contains((s, node)));
    lemma_arc_reaches(graph.arcs(), s, node);
    if !(graph.nodes()[s as int].kind is Source) {
        lemma_fewer_ancestors(graph.arcs(), graph.nodes().len(), s, node);
        law_a_source_precedes_every_other_node(graph, s);
        let m = choose|m: usize| #[trigger]
            precedes(graph.arcs(), m, s) && m < graph.nodes().len()
                && graph.nodes()[m as int].kind is Source;
        lemma_precedes_by_last_arc(graph.arcs(), m, node);
    }
}

/// In a connected pipeline, every source and every processor precedes some sink.
pub proof fn law_every_other_node_precedes_a_sink<T>(
    graph: Graph<NodeType<T>, DagEdgeType>,
    node: usize,
)
    requires
        graph.wf(),
        is_connected(graph),
        node < graph.nodes().len(),
        !(graph.nodes()[node as int].kind is Sink),
    ensures
        exists|m: usize| #[trigger]
            precedes(graph.arcs(), node, m) && m < graph.nodes().len()
                && graph.nodes()[m as int].kind is Sink,
    decreases descendants(graph.arcs(), graph.nodes().len(), node).len(),
{
    assert(output_is_connected(graph, node as int));
    let i = choose|i: int| 0 <= i < graph.arcs().len() && (#[trigger] graph.arcs()[i]).0 == node;
    let t = graph.arcs()[i].1;
    assert(graph.arcs()[i] == (node, t));
    assert(graph.arcs().contains((node, t)));
    lemma_arc_reaches(graph.arcs(), node, t);
    if !(graph.nodes()[t as int].kind is Sink) {
        lemma_fewer_descendants(graph.arcs(), graph.nodes().len(), node, t);
        law_every_other_node_precedes_a_sink(graph, t);
        let m = choose|m: usize| #[trigger]
            precedes(graph.arcs(), t, m) && m < graph.nodes().len()
                && graph.nodes()[m as int].kind is Sink;
        let u = choose|u: usize| #[trigger]
            graph.arcs().contains((t, u)) && reaches(graph.arcs(), u, m);
        lemma_arc_reaches(graph.arcs(), t, u);
        lemma_reaches_transitive(graph.arcs(), t, u, m);
        assert(precedes(graph.arcs(), node, m));
    }
}

/// The edges of a populated pipeline end at the ports of the pipeline's edges.
proof fn lemma_populated_ports<T: Clone>(
    graph: Graph<NodeType<T>, DagEdgeType>,
    population: Population<T>,
    populated: Graph<NodeType<T>, EdgeType>,
    i: int,
)
    requires
        graph.wf(),
        is_populated(graph, population),
        holds_edges_of(populated.edges(), population),
        0 <= i < graph.edges().len(),
    ensures
        populated.edges()[i].input_port == graph.edges()[i].to,
        populated.edges()[i].output_port == graph.edges()[i].from,
{
    let s = graph.arcs()[i].0 as int;
    assert(node_is_populated(graph, population, s));
    assert(edge_leaves(graph, i, s));
    assert(edge_is_made(graph, population.edges, i, population.inputs[s]));
    assert(populated.edges()[i] == population.edges[i]->Some_0.0);
}

/// In a populated pipeline, every sink whose factory lists the default port has an incoming edge
/// on it.
pub proof fn law_sinks_have_default_input<T: Clone>(
    graph: Graph<NodeType<T>, DagEdgeType>,
    populated: Graph<NodeType<T>, EdgeType>,
    node: int,
)
    requires
        graph.wf(),
        is_populated_graph(graph, populated),
        is_sink(populated, node),
        graph.nodes()[node].kind.input_ports().contains(DEFAULT_PORT_HANDLE),
    ensures
        has_default_input(populated, node),
{
    let population = choose|population: Population<T>| #[trigger]
        is_populated(graph, population) && holds_edges_of(populated.edges(), population);
    assert(node_is_populated(graph, population, node));
    assert(port_is_fed(graph, node, DEFAULT_PORT_HANDLE));
    let i = choose|i: int| #[trigger] edge_feeds(graph, i, node, DEFAULT_PORT_HANDLE);
    lemma_populated_ports(graph, population, populated, i);
    assert(edge_arrives(populated, i, node, DEFAULT_PORT_HANDLE));
}

/// In a populated pipeline, the factory of a processor or a sink was handed, port by port, the
/// schemas that its input ports are reported to have.
pub proof fn law_factories_are_handed_the_input_schemas<T: Clone>(
    graph: Graph<NodeType<T>, DagEdgeType>,
    population: Population<T>,
    populated: Graph<NodeType<T>, EdgeType>,
    node: int,
    schemas: Map<PortHandle, Schema>,
)
    requires
        graph.wf(),
        is_populated(graph, population),
        holds_edges_of(populated.edges(), population),
        populated.arcs() == graph.arcs(),
        0 <= node < graph.nodes().len(),
        !(graph.nodes()[node].kind is Source),
        are_input_schemas(populated, node, schemas),
    ensures
        schemas.dom() == population.inputs[node].dom(),
        forall|port: PortHandle| #[trigger]
            schemas.contains_key(port) ==> schemas[port]@ == population.inputs[node][port].0@,
{
    assert(node_is_populated(graph, population, node));
    let inputs = population.inputs[node];
    assert(inputs_are_gathered(graph, population.edges, node, inputs));
    assert forall|port: PortHandle| schemas.contains_key(port) implies inputs.contains_key(port)
        && schemas[port]@ == inputs[port].0@ by {
        let i = choose|i: int| #[trigger]
            edge_arrives_first(populated, i, node, port) && schemas[port]@
                == populated.edges()[i].schema@;
        lemma_populated_ports(graph, population, populated, i);
        assert(edge_feeds(graph, i, node, port));
        assert(port_is_fed(graph, node, port));
    }
    assert forall|port: PortHandle| inputs.contains_key(port) implies schemas.contains_key(
        port,
    ) by {
        assert(port_is_fed(graph, node, port));
        let i = choose|i: int| #[trigger] edge_feeds(graph, i, node, port);
        lemma_populated_ports(graph, population, populated, i);
        assert(edge_arrives(populated, i, node, port));
    }
    assert(schemas.dom() =~= inputs.dom());
}

/// In the schemas of a connected pipeline, every sink is reported to have a source.
pub proof fn law_sinks_have_sources<T: Clone>(
    graph: Graph<NodeType<T>, DagEdgeType>,
    populated: Graph<NodeType<T>, EdgeType>,
    node: usize,
)
    requires
        graph.wf(),
        is_connected(graph),
        is_populated_graph(graph, populated),
        is_sink(populated, node as int),
    ensures
        exists|id: Seq<char>| #[trigger] source_ids(populated, node).contains(id),
{
    law_a_source_precedes_every_other_node(graph, node);
    let m = choose|m: usize| #[trigger]
        precedes(graph.arcs(), m, node) && m < graph.nodes().len()
            && graph.nodes()[m as int].kind is Source;
    assert(source_ids(populated, node).contains(populated.nodes()[m as int].handle.id@));
}

/// The factory of a node never fails.
pub open spec fn never_fails<T>(kind: NodeKind<T>) -> bool {
    match kind {
        NodeKind::Sink(sink) => forall|
            inputs: Map<PortHandle, (Schema, T)>,
            error: FactoryError,
        | !#[trigger] sink.may_prepare(inputs, Some(error)),
        _ => forall|
            port: PortHandle,
            inputs: Map<PortHandle, (Schema, T)>,
            error: FactoryError,
        | !#[trigger] node_may_output(kind, port, inputs, Err(error)),
    }
}

/// Where no factory fails and the inputs of every processor and sink are complete, nothing stops
/// the population of a pipeline.
pub proof fn law_nothing_stops_a_complete_pipeline<T: Clone>(
    graph: Graph<NodeType<T>, DagEdgeType>,
    population: Population<T>,
    node: int,
    error: ExecutionError,
)
    requires
        graph.wf(),
        forall|n: int|
            0 <= n < graph.nodes().len() ==> {
                let kind = (#[trigger] graph.nodes()[n]).kind;
                never_fails(kind) && (kind is Source || inputs_are_complete(graph, n))
            },
    ensures
        !population_stops(graph, population, node, error),
{
    if population_stops(graph, population, node, error) {
        let kind = graph.nodes()[node].kind;
        assert(never_fails(kind));
        match error {
            ExecutionError::Factory(failure) => {
                assert(factory_fails(
                    graph,
                    population.edges,
                    population.inputs[node],
                    node,
                    failure,
                ));
            },
            ExecutionError::DuplicateInput { port, .. } => {
                lemma_duplicate_input_is_fed_twice(graph, node, port);
            },
            _ => {},
        }
    }
}

/// Two sets of inputs hold the same schemas and contexts.
pub open spec fn same_inputs<T>(
    a: Map<PortHandle, (Schema, T)>,
    b: Map<PortHandle, (Schema, T)>,
) -> bool {
    &&& a.dom() == b.dom()
    &&& forall|port: PortHandle| #[trigger]
        a.contains_key(port) ==> a[port].0@ == b[port].0@ && a[port].1 == b[port].1
}

/// Two answers to the question for an output schema are the same.
pub open spec fn same_output<T>(
    x: Result<(Schema, T), FactoryError>,
    y: Result<(Schema, T), FactoryError>,
) -> bool {
    match (x, y) {
        (Ok(x), Ok(y)) => x.0@ == y.0@ && x.1 == y.1,
        (Err(x), Err(y)) => x == y,
        _ => false,
    }
}

/// The factory of a node answers in the same way whenever it is handed the same inputs.
pub open spec fn is_deterministic<T>(kind: NodeKind<T>) -> bool {
    match kind {
        NodeKind::Sink(sink) => forall|
            a: Map<PortHandle, (Schema, T)>,
            b: Map<PortHandle, (Schema, T)>,
            x: Option<FactoryError>,
            y: Option<FactoryError>,
        |
            same_inputs(a, b) ==> #[trigger] sink.may_prepare(a, x) && #[trigger] sink.may_prepare(
                b,
                y,
            ) ==> x == y,
        _ => forall|
            port: PortHandle,
            a: Map<PortHandle, (Schema, T)>,
            b: Map<PortHandle, (Schema, T)>,
            x: Result<(Schema, T), FactoryError>,
            y: Result<(Schema, T), FactoryError>,
        |
            kind is Source || same_inputs(a, b) ==> #[trigger] node_may_output(kind, port, a, x)
                && #[trigger] node_may_output(kind, port, b, y) ==> same_output(x, y),
    }
}

/// Every factory of a pipeline answers in the same way whenever it is handed the same inputs, and
/// contexts are cloned faithfully.
pub open spec fn all_deterministic<T: Clone>(graph: Graph<NodeType<T>, DagEdgeType>) -> bool {
    &&& forall|n: int|
        0 <= n < graph.nodes().len() ==> is_deterministic((#[trigger] graph.nodes()[n]).kind)
    &&& forall|a: T, b: T| #[trigger] cloned(a, b) ==> a == b
}

/// Two edges have the same ports, schema and context.
pub open spec fn same_edge<T>(a: Option<(EdgeType, T)>, b: Option<(EdgeType, T)>) -> bool {
    &&& a is Some
    &&& b is Some
    &&& a->Some_0.0.output_port == b->Some_0.0.output_port
    &&& a->Some_0.0.output_port_type == b->Some_0.0.output_port_type
    &&& a->Some_0.0.input_port == b->Some_0.0.input_port
    &&& a->Some_0.0.schema@ == b->Some_0.0.schema@
    &&& a->Some_0.1 == b->Some_0.1
}

/// Every node that precedes the node is populated.
spec fn upstream_is_populated<T: Clone>(
    graph: Graph<NodeType<T>, DagEdgeType>,
    population: Population<T>,
    node: usize,
) -> bool {
    forall|m: usize| #[trigger]
        precedes(graph.arcs(), m, node) ==> node_is_populated(graph, population, m as int)
}

/// What the edges into a node carry is determined.
proof fn lemma_inputs_are_determined<T: Clone>(
    graph: Graph<NodeType<T>, DagEdgeType>,
    p: Population<T>,
    q: Population<T>,
    node: usize,
)
    requires
        graph.wf(),
        all_deterministic(graph),
        node < graph.nodes().len(),
        upstream_is_populated(graph, p, node),
        upstream_is_populated(graph, q, node),
        inputs_are_gathered(graph, p.edges, node as int, p.inputs[node as int]),
        inputs_are_gathered(graph, q.edges, node as int, q.inputs[node as int]),
    ensures
        same_inputs(p.inputs[node as int], q.inputs[node as int]),
    decreases ancestors(graph.arcs(), graph.nodes().len(), node).len(), 0int,
{
    let n = node as int;
    assert forall|i: int, port: PortHandle| #[trigger] edge_feeds(graph, i, n, port) implies {
        &&& p.inputs[n][port].0@ == q.inputs[n][port].0@
        &&& p.inputs[n][port].1 == q.inputs[n][port].1
    } by {
        let s = graph.arcs()[i].0;
        assert(graph.arcs()[i] == (s, node));
        assert(graph.arcs().contains((s, node)));
        lemma_arc_reaches(graph.arcs(), s, node);
        lemma_fewer_ancestors(graph.arcs(), graph.nodes().len(), s, node);
        assert forall|m: usize| #[trigger] precedes(graph.arcs(), m, s) implies precedes(
            graph.arcs(),
            m,
            node,
        ) by {
            lemma_precedes_by_last_arc(graph.arcs(), m, node);
        }
        lemma_edges_are_determined(graph, p, q, s);
        assert(edge_leaves(graph, i, s as int));
    }
    assert(p.inputs[n].dom() =~= q.inputs[n].dom());
    assert forall|port: PortHandle| #[trigger] p.inputs[n].contains_key(port) implies {
        &&& p.inputs[n][port].0@ == q.inputs[n][port].0@
        &&& p.inputs[n][port].1 == q.inputs[n][port].1
    } by {
        assert(port_is_fed(graph, n, port));
    }
}

/// What the edges out of a node carry is determined.
proof fn lemma_edges_are_determined<T: Clone>(
    graph: Graph<NodeType<T>, DagEdgeType>,
    p: Population<T>,
    q: Population<T>,
    node: usize,
)
    requires
        graph.wf(),
        all_deterministic(graph),
        node < graph.nodes().len(),
        upstream_is_populated(graph, p, node),
        upstream_is_populated(graph, q, node),
        node_is_populated(graph, p, node as int),
        node_is_populated(graph, q, node as int),
    ensures
        forall|i: int| #[trigger]
            edge_leaves(graph, i, node as int) ==> same_edge(p.edges[i], q.edges[i]),
    decreases ancestors(graph.arcs(), graph.nodes().len(), node).len(), 1int,
{
    let n = node as int;
    let kind = graph.nodes()[n].kind;
    assert(is_deterministic(graph.nodes()[n].kind));
    if !(kind is Source) {
        lemma_inputs_are_determined(graph, p, q, node);
    }
    assert forall|i: int| #[trigger] edge_leaves(graph, i, n) implies same_edge(
        p.edges[i],
        q.edges[i],
    ) by {
        let handle = graph.edges()[i].from;
        let (e, x) = p.edges[i]->Some_0;
        let (f, y) = q.edges[i]->Some_0;
        assert(edge_is_made(graph, p.edges, i, p.inputs[n]));
        assert(edge_is_made(graph, q.edges, i, q.inputs[n]));
        assert(node_may_output(kind, handle, p.inputs[n], Ok((e.schema, x))));
        assert(node_may_output(kind, handle, q.inputs[n], Ok((f.schema, y))));
        let j = choose|j: int| #[trigger]
            is_first_port(kind.output_ports(), handle, j) && e.output_port_type
                == kind.output_ports()[j].typ;
        let k = choose|k: int| #[trigger]
            is_first_port(kind.output_ports(), handle, k) && f.output_port_type
                == kind.output_ports()[k].typ;
        assert(j == k) by {
            if j < k {
                assert(kind.output_ports()[j].handle != handle);
            }
            if k < j {
                assert(kind.output_ports()[k].handle != handle);
            }
        }
    }
}

/// Where every factory answers in the same way to the same inputs, and contexts are cloned
/// faithfully, a pipeline has one population only: any two agree on every edge.
pub proof fn law_population_is_determined<T: Clone>(
    graph: Graph<NodeType<T>, DagEdgeType>,
    p: Population<T>,
    q: Population<T>,
)
    requires
        graph.wf(),
        all_deterministic(graph),
        is_populated(graph, p),
        is_populated(graph, q),
    ensures
        forall|i: int| 0 <= i < graph.edges().len() ==> same_edge(#[trigger] p.edges[i], q.edges[i]),
{
    assert forall|i: int| 0 <= i < graph.edges().len() implies same_edge(
        #[trigger] p.edges[i],
        q.edges[i],
    ) by {
        let s = graph.arcs()[i].0;
        lemma_upstream_of_populated(graph, p, s);
        lemma_upstream_of_populated(graph, q, s);
        assert(node_is_populated(graph, p, s as int));
        assert(node_is_populated(graph, q, s as int));
        lemma_edges_are_determined(graph, p, q, s);
        assert(edge_leaves(graph, i, s as int));
    }
}

/// In a populated pipeline, what precedes a node is populated.
proof fn lemma_upstream_of_populated<T: Clone>(
    graph: Graph<NodeType<T>, DagEdgeType>,
    p: Population<T>,
    node: usize,
)
    requires
        graph.wf(),
        is_populated(graph, p),
    ensures
        upstream_is_populated(graph, p, node),
{
    assert forall|m: usize| #[trigger]
        precedes(graph.arcs(), m, node) implies node_is_populated(graph, p, m as int) by {
        let t = choose|t: usize| #[trigger]
            graph.arcs().contains((m, t)) && reaches(graph.arcs(), t, node);
        let i = choose|i: int| 0 <= i < graph.arcs().len() && graph.arcs()[i] == (m, t);
        assert(graph.arcs()[i].0 < graph.nodes().len());
    }
}

/// What precedes a node comes before it in the walk.
proof fn lemma_upstream_in_walk<T: Clone>(
    graph: Graph<NodeType<T>, DagEdgeType>,
    p: Population<T>,
    k: int,
)
    requires
        graph.wf(),
        ({
            let walk = topological_walk(graph.arcs(), graph.nodes().len());
            &&& is_topological_order(graph.arcs(), graph.nodes().len(), walk)
            &&& 0 <= k < walk.len()
            &&& forall|j: int| 0 <= j < k ==> node_is_populated(graph, p, #[trigger] walk[j] as int)
        }),
    ensures
        upstream_is_populated(
            graph,
            p,
            topological_walk(graph.arcs(), graph.nodes().len())[k],
        ),
{
    let walk = topological_walk(graph.arcs(), graph.nodes().len());
    assert forall|m: usize| #[trigger]
        precedes(graph.arcs(), m, walk[k]) implies node_is_populated(graph, p, m as int) by {
        lemma_precedes_in_order(graph.arcs(), graph.nodes().len(), walk, m, k);
        let j = choose|j: int| 0 <= j < k && walk[j] == m;
        assert(node_is_populated(graph, p, walk[j] as int));
    }
}

/// A node cannot both fail and be populated, where all that precedes it is populated.
proof fn lemma_fails_or_is_populated<T: Clone>(
    graph: Graph<NodeType<T>, DagEdgeType>,
    p: Population<T>,
    q: Population<T>,
    node: usize,
    error: ExecutionError,
)
    requires
        graph.wf(),
        all_deterministic(graph),
        node < graph.nodes().len(),
        upstream_is_populated(graph, p, node),
        upstream_is_populated(graph, q, node),
        node_fails(graph, p.edges, p.inputs[node as int], node as int, error),
    ensures
        !node_is_populated(graph, q, node as int),
{
    let n = node as int;
    let kind = graph.nodes()[n].kind;
    if node_is_populated(graph, q, n) {
        assert(is_deterministic(graph.nodes()[n].kind));
        match error {
            ExecutionError::DuplicateInput { port, .. } => {
                lemma_duplicate_input_is_fed_twice(graph, n, port);
            },
            ExecutionError::Factory(failure) => {
                if !(kind is Source) {
                    lemma_inputs_are_determined(graph, p, q, node);
                }
                if !(kind is Sink) {
                    let i = choose|i: int| #[trigger]
                        output_fails(graph, p.edges, p.inputs[n], i, n, failure);
                    assert(edge_is_made(graph, q.edges, i, q.inputs[n]));
                }
            },
            _ => {},
        }
    }
}

/// A node can fail in one way only, where all that precedes it is populated.
proof fn lemma_failure_is_determined<T: Clone>(
    graph: Graph<NodeType<T>, DagEdgeType>,
    p: Population<T>,
    q: Population<T>,
    node: usize,
    e: ExecutionError,
    f: ExecutionError,
)
    requires
        graph.wf(),
        all_deterministic(graph),
        node < graph.nodes().len(),
        upstream_is_populated(graph, p, node),
        upstream_is_populated(graph, q, node),
        node_fails(graph, p.edges, p.inputs[node as int], node as int, e),
        node_fails(graph, q.edges, q.inputs[node as int], node as int, f),
    ensures
        e == f,
{
    let n = node as int;
    let kind = graph.nodes()[n].kind;
    assert(is_deterministic(graph.nodes()[n].kind));
    if let ExecutionError::DuplicateInput { port, .. } = e {
        lemma_duplicate_input_is_fed_twice(graph, n, port);
    }
    if let ExecutionError::DuplicateInput { port, .. } = f {
        lemma_duplicate_input_is_fed_twice(graph, n, port);
    }
    match (e, f) {
        (ExecutionError::Factory(x), ExecutionError::Factory(y)) => {
            if !(kind is Source) {
                lemma_inputs_are_determined(graph, p, q, node);
            }
            if !(kind is Sink) {
                let i = choose|i: int| #[trigger]
                    output_fails(graph, p.edges, p.inputs[n], i, n, x);
                let j = choose|j: int| #[trigger]
                    output_fails(graph, q.edges, q.inputs[n], j, n, y);
                if i < j {
                    assert(edge_is_made(graph, p.edges, j, p.inputs[n]));
                }
                if j < i {
                    assert(edge_is_made(graph, q.edges, i, q.inputs[n]));
                }
            }
        },
        _ => {},
    }
}

/// Where every factory answers in the same way to the same inputs, and contexts are cloned
/// faithfully, the population of a pipeline can stop at one node and with one error only, and it
/// does not stop at all if it can be completed.
pub proof fn law_failure_is_determined<T: Clone>(
    graph: Graph<NodeType<T>, DagEdgeType>,
    p: Population<T>,
    m: int,
    e: ExecutionError,
    q: Population<T>,
    n: int,
    f: ExecutionError,
)
    requires
        graph.wf(),
        all_deterministic(graph),
        population_stops(graph, p, m, e),
    ensures
        population_stops(graph, q, n, f) ==> m == n && e == f,
        !is_populated(graph, q),
{
    let walk = topological_walk(graph.arcs(), graph.nodes().len());
    let a = choose|a: int|
        0 <= a < walk.len() && #[trigger] walk[a] == m && forall|j: int|
            0 <= j < a ==> node_is_populated(graph, p, #[trigger] walk[j] as int);
    if is_populated(graph, q) {
        lemma_upstream_of_populated(graph, q, m as usize);
        lemma_fails_or_is_populated(graph, p, q, m as usize, e);
        assert(node_is_populated(graph, q, m));
    }
    if population_stops(graph, q, n, f) {
        let b = choose|b: int|
            0 <= b < walk.len() && #[trigger] walk[b] == n && forall|j: int|
                0 <= j < b ==> node_is_populated(graph, q, #[trigger] walk[j] as int);
        if a < b {
            lemma_upstream_in_walk(graph, q, a);
            lemma_fails_or_is_populated(graph, p, q, m as usize, e);
            assert(node_is_populated(graph, q, walk[a] as int));
        } else if b < a {
            lemma_upstream_in_walk(graph, p, b);
            lemma_fails_or_is_populated(graph, q, p, n as usize, f);
            assert(node_is_populated(graph, p, walk[b] as int));
        } else {
            lemma_failure_is_determined(graph, p, q, m as usize, e, f);
        }
    }
}

} // verus!
