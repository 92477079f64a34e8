//! What the words of the contracts on pipelines come down to: nodes, arcs, ports, and what the
//! factories answer.

use vstd::hash_set::StringHashSet;
use vstd::prelude::*;
use vstd::seq_lib::group_to_multiset_ensures;

use crate::connectivity::{
    connected_ports, edges_entering, input_fails_first, input_is_connected, is_connected,
    is_connectivity_error, lemma_edges_entering, output_is_connected,
};
use crate::dag::{edge_fits_ports, Dag, EdgeType as DagEdgeType};
use crate::dag_schemas::{
    are_input_schemas, are_output_schemas, edge_arrives, edge_arrives_first, edge_departs,
    edge_departs_first, has_default_input, is_sink, is_sink_entry, source_ids, EdgeHaveSchema,
    EdgeType,
};
use crate::errors::{ConnectivityError, ExecutionError};
use crate::graph::Graph;
use crate::node::{
    FactoryError, NodeKind, NodeType, OutputPortDef, PortHandle, DEFAULT_PORT_HANDLE,
};
use crate::populate::{
    edge_feeds, edge_is_made, edge_leaves, edge_repeats, edges_leave_ports, holds_edges_of,
    inputs_are_complete, inputs_are_gathered, is_duplicate_input, is_first_port, is_missing_input,
    is_populated, is_populated_graph, lemma_duplicate_input_is_fed_twice, node_is_populated,
    output_fails, population_stops, port_is_fed, port_is_fed_twice, Population,
};
use crate::reach::{
    acyclic, is_path_between, joined, lemma_arc_reaches, lemma_not_before_itself,
    lemma_precedes_by_last_arc, lemma_reaches_self, lemma_reaches_transitive, precedes, reaches,
};
use crate::types::{law_schemas_that_say_the_same, Schema};

verus! {

/// The ports of a node are those that its factory lists: of a source the output ports, of a sink
/// the input ports, of a processor both.
pub proof fn law_ports_are_those_of_the_factory<T>(kind: NodeKind<T>, handle: PortHandle)
    ensures
        match kind {
            NodeKind::Source(source) => {
                &&& kind.input_ports().len() == 0
                &&& kind.output_ports() == source.output_ports()
            },
            NodeKind::Processor(processor) => {
                &&& kind.input_ports() == processor.input_ports()
                &&& kind.output_ports() == processor.output_ports()
            },
            NodeKind::Sink(sink) => {
                &&& kind.input_ports() == sink.input_ports()
                &&& kind.output_ports().len() == 0
            },
        },
        kind.has_output_port(handle) <==> exists|i: int|
            0 <= i < kind.output_ports().len() && (#[trigger] kind.output_ports()[i]).handle
                == handle,
{
}

/// In a well-formed pipeline, every edge joins two nodes of it, at ports that they list.
pub proof fn law_edges_join_listed_ports<T>(dag: Dag<T>, i: int)
    requires
        dag.wf(),
        0 <= i < dag.spec_graph().edges().len(),
    ensures
        dag.spec_graph().arcs().len() == dag.spec_graph().edges().len(),
        ({
            let graph = dag.spec_graph();
            let (from, to) = graph.arcs()[i];
            &&& from < graph.nodes().len()
            &&& to < graph.nodes().len()
            &&& from != to
            &&& exists|k: int|
                0 <= k < graph.nodes()[from as int].kind.output_ports().len() && (
                #[trigger] graph.nodes()[from as int].kind.output_ports()[k]).handle
                    == graph.edges()[i].from
            &&& graph.nodes()[to as int].kind.input_ports().contains(graph.edges()[i].to)
        }),
{
    let graph = dag.spec_graph();
    let (from, to) = graph.arcs()[i];
    assert(edge_fits_ports(graph, i));
    assert(graph.arcs().contains((from, to)));
    lemma_reaches_self(graph.arcs(), from);
}

/// A node is reached from itself, and from the start of every arc to a node that reaches it, and
/// from no other. It is preceded by the starts of the arcs to it, and of those to nodes that
/// precede it, and by no other.
pub proof fn law_reaching_goes_along_arcs(arcs: Seq<(usize, usize)>, a: usize, b: usize)
    ensures
        reaches(arcs, a, b) <==> a == b || exists|m: usize| #[trigger]
            arcs.contains((a, m)) && reaches(arcs, m, b),
        precedes(arcs, a, b) <==> exists|m: usize| #[trigger]
            arcs.contains((a, m)) && (m == b || precedes(arcs, m, b)),
        acyclic(arcs) <==> forall|n: usize| !#[trigger] precedes(arcs, n, n),
{
    lemma_reaches_self(arcs, a);
    lemma_reaches_by_first_arc(arcs, a, b);
    if precedes(arcs, a, b) {
        let m = choose|m: usize| #[trigger] arcs.contains((a, m)) && reaches(arcs, m, b);
        lemma_reaches_by_first_arc(arcs, m, b);
        assert(arcs.contains((a, m)) && (m == b || precedes(arcs, m, b)));
    }
    if exists|m: usize| #[trigger] arcs.contains((a, m)) && (m == b || precedes(arcs, m, b)) {
        let m = choose|m: usize| #[trigger]
            arcs.contains((a, m)) && (m == b || precedes(arcs, m, b));
        lemma_reaches_by_first_arc(arcs, m, b);
        lemma_reaches_self(arcs, b);
        assert(reaches(arcs, m, b));
    }
    if acyclic(arcs) {
        assert forall|n: usize| !#[trigger] precedes(arcs, n, n) by {
            lemma_not_before_itself(arcs, n);
        }
    } else {
        let (s, t) = choose|s: usize, t: usize| #[trigger]
            arcs.contains((s, t)) && reaches(arcs, t, s);
        assert(precedes(arcs, s, s));
    }
}

/// A node is reached from another along a first arc.
proof fn lemma_reaches_by_first_arc(arcs: Seq<(usize, usize)>, a: usize, b: usize)
    ensures
        reaches(arcs, a, b) <==> a == b || precedes(arcs, a, b),
{
    lemma_reaches_self(arcs, a);
    if reaches(arcs, a, b) && a != b {
        let path = choose|path: Seq<usize>| is_path_between(arcs, path, a, b);
        let rest = path.drop_first();
        let m = path[1];
        assert(joined(arcs, path, 0));
        assert forall|i: int| 0 <= i < rest.len() - 1 implies #[trigger] joined(arcs, rest, i) by {
            assert(joined(arcs, path, i + 1));
        }
        assert(is_path_between(arcs, rest, m, b));
        assert(arcs.contains((a, m)) && reaches(arcs, m, b));
    }
    if precedes(arcs, a, b) {
        let m = choose|m: usize| #[trigger] arcs.contains((a, m)) && reaches(arcs, m, b);
        lemma_arc_reaches(arcs, a, m);
        lemma_reaches_transitive(arcs, a, m, b);
    }
}

/// The edges that end at an input port of a node.
pub open spec fn edges_ending_at<T>(
    graph: Graph<NodeType<T>, DagEdgeType>,
    node: int,
    port: PortHandle,
) -> Set<int> {
    Set::new(
        |i: int|
            0 <= i < graph.arcs().len() && graph.arcs()[i].1 == node && graph.edges()[i].to == port,
    )
}

/// The places of a value in a sequence.
spec fn places_of<A>(s: Seq<A>, value: A) -> Set<int> {
    Set::new(|k: int| 0 <= k < s.len() && s[k] == value)
}

/// A value is counted once for each of its places.
proof fn lemma_count_is_number_of_places<A>(s: Seq<A>, value: A)
    ensures
        places_of(s, value).finite(),
        places_of(s, value).len() == s.to_multiset().count(value),
    decreases s.len(),
{
    broadcast use group_to_multiset_ensures;

    if s.len() == 0 {
        assert(places_of(s, value) =~= Set::empty());
        assert(!s.contains(value));
    } else {
        let rest = s.drop_last();
        lemma_count_is_number_of_places(rest, value);
        assert(s =~= rest.push(s.last()));
        if s.last() == value {
            assert(places_of(s, value) =~= places_of(rest, value).insert(s.len() - 1));
        } else {
            assert(places_of(s, value) =~= places_of(rest, value));
        }
    }
}

/// As many edges end at a port as the port occurs among the connected ports.
proof fn lemma_connected_ports_count_edges<T>(
    graph: Graph<NodeType<T>, DagEdgeType>,
    node: int,
    port: PortHandle,
)
    ensures
        edges_ending_at(graph, node, port).finite(),
        edges_ending_at(graph, node, port).len() == connected_ports(
            graph,
            node,
        ).to_multiset().count(port),
{
    let entering = edges_entering(graph.arcs(), node);
    let connected = connected_ports(graph, node);
    let places = places_of(connected, port);
    let edges = edges_ending_at(graph, node, port);
    lemma_edges_entering(graph.arcs(), node);
    lemma_count_is_number_of_places(connected, port);
    let edge_of = |k: int| entering[k];
    assert(edges =~= places.map(edge_of)) by {
        assert forall|i: int| edges.contains(i) implies places.map(edge_of).contains(i) by {
            assert(entering.contains(i));
            let k = choose|k: int| 0 <= k < entering.len() && entering[k] == i;
            assert(connected[k] == port);
            assert(places.contains(k));
            assert(edge_of(k) == i);
        }
        assert forall|i: int| places.map(edge_of).contains(i) implies edges.contains(i) by {
            let k = choose|k: int| places.contains(k) && edge_of(k) == i;
            assert(connected[k] == port);
            assert(entering.contains(entering[k]));
        }
    }
    assert(vstd::relations::injective_on(edge_of, places)) by {
        assert forall|a: int, b: int|
            places.contains(a) && places.contains(b) && #[trigger] edge_of(a) == #[trigger] edge_of(
                b,
            ) implies a == b by {
            assert(entering[a] == entering[b]);
        }
    }
    places.lemma_map_finite(edge_of);
    vstd::set_lib::lemma_map_size(places, edges, edge_of);
}

/// A pipeline is connected exactly if every source and every processor is the start of at least one
/// arc, every processor and every sink lists at least one input port, and at each port of it as
/// many edges end as it lists the port.
pub proof fn law_what_connected_means<T>(graph: Graph<NodeType<T>, DagEdgeType>)
    ensures
        is_connected(graph) <==> {
            &&& forall|n: int|
                0 <= n < graph.nodes().len() && (#[trigger] graph.nodes()[n]).kind !is Sink
                    ==> exists|i: int|
                    0 <= i < graph.arcs().len() && (#[trigger] graph.arcs()[i]).0 == n
            &&& forall|n: int|
                0 <= n < graph.nodes().len() && (#[trigger] graph.nodes()[n]).kind !is Source
                    ==> graph.nodes()[n].kind.input_ports().len() > 0
            &&& forall|n: int, port: PortHandle|
                0 <= n < graph.nodes().len() && graph.nodes()[n].kind !is Source
                    ==> graph.nodes()[n].kind.input_ports().to_multiset().count(port)
                    == #[trigger] edges_ending_at(graph, n, port).len()
        },
{
    broadcast use group_to_multiset_ensures;

    assert forall|n: int, port: PortHandle|
        connected_ports(graph, n).to_multiset().count(port) == #[trigger] edges_ending_at(
            graph,
            n,
            port,
        ).len() by {
        lemma_connected_ports_count_edges(graph, n, port);
    }
    if is_connected(graph) {
        assert forall|n: int|
            0 <= n < graph.nodes().len() && (#[trigger] graph.nodes()[n]).kind
                !is Sink implies exists|i: int|
            0 <= i < graph.arcs().len() && (#[trigger] graph.arcs()[i]).0 == n by {
            assert(output_is_connected(graph, n));
        }
        assert forall|n: int|
            0 <= n < graph.nodes().len() && (#[trigger] graph.nodes()[n]).kind
                !is Source implies graph.nodes()[n].kind.input_ports().len() > 0 by {
            assert(input_is_connected(graph, n));
        }
        assert forall|n: int, port: PortHandle|
            0 <= n < graph.nodes().len() && graph.nodes()[n].kind
                !is Source implies graph.nodes()[n].kind.input_ports().to_multiset().count(port)
            == #[trigger] edges_ending_at(graph, n, port).len() by {
            assert(input_is_connected(graph, n));
        }
    }
    if {
        &&& forall|n: int|
            0 <= n < graph.nodes().len() && (#[trigger] graph.nodes()[n]).kind !is Sink
                ==> exists|i: int|
                0 <= i < graph.arcs().len() && (#[trigger] graph.arcs()[i]).0 == n
        &&& forall|n: int|
            0 <= n < graph.nodes().len() && (#[trigger] graph.nodes()[n]).kind !is Source
                ==> graph.nodes()[n].kind.input_ports().len() > 0
        &&& forall|n: int, port: PortHandle|
            0 <= n < graph.nodes().len() && graph.nodes()[n].kind !is Source
                ==> graph.nodes()[n].kind.input_ports().to_multiset().count(port)
                == #[trigger] edges_ending_at(graph, n, port).len()
    } {
        assert forall|n: int| 0 <= n < graph.nodes().len() implies output_is_connected(graph, n)
            && input_is_connected(graph, n) by {
            let kind = graph.nodes()[n].kind;
            if kind !is Source {
                let listed = kind.input_ports().to_multiset();
                let connected = connected_ports(graph, n).to_multiset();
                assert forall|port: PortHandle| listed.count(port) == connected.count(port) by {
                    assert(listed.count(port) == edges_ending_at(graph, n, port).len());
                }
                assert(listed =~= connected);
            }
        }
    }
}

/// One more edge out of a node that already has one leaves its output connected.
pub proof fn law_more_outgoing_edges_do_no_harm<T>(
    graph: Graph<NodeType<T>, DagEdgeType>,
    more: Graph<NodeType<T>, DagEdgeType>,
    arc: (usize, usize),
    node: int,
)
    requires
        more.nodes() == graph.nodes(),
        more.arcs() == graph.arcs().push(arc),
        output_is_connected(graph, node),
    ensures
        output_is_connected(more, node),
{
    if graph.nodes()[node].kind !is Sink {
        let i = choose|i: int|
            0 <= i < graph.arcs().len() && (#[trigger] graph.arcs()[i]).0 == node;
        assert(more.arcs()[i].0 == node);
    }
}

/// An error on how a pipeline is connected names a node for what is wrong with it. A node that
/// sends, but at which no arc starts, comes before all else. A node that lists no input port, or
/// at whose ports not as many edges end as it lists them, is reported where no sending node fails;
/// the ports that it lists and those that are connected come with the error, sorted.
pub proof fn law_connectivity_errors<T>(
    graph: Graph<NodeType<T>, DagEdgeType>,
    node: int,
    error: ConnectivityError,
)
    requires
        is_connectivity_error(graph, node, error),
    ensures
        !is_connected(graph),
        0 <= node < graph.nodes().len(),
        match error {
            ConnectivityError::NoOutgoingEdge { node: handle } => {
                &&& handle == graph.nodes()[node].handle
                &&& graph.nodes()[node].kind !is Sink
                &&& forall|i: int|
                    0 <= i < graph.arcs().len() ==> (#[trigger] graph.arcs()[i]).0 != node
                &&& forall|n: int|
                    0 <= n < node && (#[trigger] graph.nodes()[n]).kind !is Sink ==> exists|i: int|
                        0 <= i < graph.arcs().len() && (#[trigger] graph.arcs()[i]).0 == n
            },
            ConnectivityError::NoInputPort { node: handle } => {
                &&& handle == graph.nodes()[node].handle
                &&& graph.nodes()[node].kind !is Source
                &&& graph.nodes()[node].kind.input_ports().len() == 0
            },
            ConnectivityError::InputPortsMismatch {
                node: handle,
                input_ports,
                connected_input_ports,
            } => {
                &&& handle == graph.nodes()[node].handle
                &&& graph.nodes()[node].kind !is Source
                &&& graph.nodes()[node].kind.input_ports().len() > 0
                &&& input_ports@.to_multiset()
                    == graph.nodes()[node].kind.input_ports().to_multiset()
                &&& forall|port: PortHandle|
                    connected_input_ports@.to_multiset().count(port) == #[trigger] edges_ending_at(
                        graph,
                        node,
                        port,
                    ).len()
                &&& input_ports@ != connected_input_ports@
                &&& forall|i: int, j: int|
                    0 <= i < j < input_ports@.len() ==> input_ports@[i] <= input_ports@[j]
                &&& forall|i: int, j: int|
                    0 <= i < j < connected_input_ports@.len() ==> connected_input_ports@[i]
                        <= connected_input_ports@[j]
            },
        },
        error !is NoOutgoingEdge ==> forall|n: int|
            0 <= n < graph.nodes().len() && (#[trigger] graph.nodes()[n]).kind !is Sink
                ==> exists|i: int|
                0 <= i < graph.arcs().len() && (#[trigger] graph.arcs()[i]).0 == n,
        error !is NoOutgoingEdge ==> forall|n: int|
            0 <= n < node && (#[trigger] graph.nodes()[n]).kind !is Source
                ==> graph.nodes()[n].kind.input_ports().len() > 0,
        error !is NoOutgoingEdge ==> forall|n: int, port: PortHandle|
            0 <= n < node && graph.nodes()[n].kind !is Source
                ==> graph.nodes()[n].kind.input_ports().to_multiset().count(port)
                == #[trigger] edges_ending_at(graph, n, port).len(),
{
    assert(!output_is_connected(graph, node) || !input_is_connected(graph, node));
    if error is NoOutgoingEdge {
        assert forall|n: int|
            0 <= n < node && (#[trigger] graph.nodes()[n]).kind !is Sink implies exists|i: int|
            0 <= i < graph.arcs().len() && (#[trigger] graph.arcs()[i]).0 == n by {
            assert(output_is_connected(graph, n));
        }
    }
    assert forall|n: int, port: PortHandle|
        error !is NoOutgoingEdge && 0 <= n < node && graph.nodes()[n].kind
            !is Source implies graph.nodes()[n].kind.input_ports().to_multiset().count(port)
        == #[trigger] edges_ending_at(graph, n, port).len() by {
        assert(input_fails_first(graph, node));
        assert(input_is_connected(graph, n));
        lemma_connected_ports_count_edges(graph, n, port);
    }
    if error !is NoOutgoingEdge {
        assert forall|n: int|
            0 <= n < node && (#[trigger] graph.nodes()[n]).kind
                !is Source implies graph.nodes()[n].kind.input_ports().len() > 0 by {
            assert(input_fails_first(graph, node));
            assert(input_is_connected(graph, n));
        }
        assert forall|n: int|
            0 <= n < graph.nodes().len() && (#[trigger] graph.nodes()[n]).kind
                !is Sink implies exists|i: int|
            0 <= i < graph.arcs().len() && (#[trigger] graph.arcs()[i]).0 == n by {
            assert(output_is_connected(graph, n));
        }
    }
    if let ConnectivityError::InputPortsMismatch { connected_input_ports, .. } = error {
        assert forall|port: PortHandle|
            connected_input_ports@.to_multiset().count(port) == #[trigger] edges_ending_at(
                graph,
                node,
                port,
            ).len() by {
            lemma_connected_ports_count_edges(graph, node, port);
        }
    }
}

/// A port of a node is fed if an edge ends at it, and fed twice if two edges do.
pub proof fn law_what_fed_means<T>(
    graph: Graph<NodeType<T>, DagEdgeType>,
    node: int,
    port: PortHandle,
)
    ensures
        port_is_fed(graph, node, port) <==> exists|i: int|
            0 <= i < graph.arcs().len() && (#[trigger] graph.arcs()[i]).1 == node
                && graph.edges()[i].to == port,
        port_is_fed_twice(graph, node, port) <==> exists|i: int, j: int|
            0 <= i < j < graph.arcs().len() && (#[trigger] graph.arcs()[i]).1 == node && (
            #[trigger] graph.arcs()[j]).1 == node && graph.edges()[i].to == port
                && graph.edges()[j].to == port,
{
    if exists|i: int|
        0 <= i < graph.arcs().len() && (#[trigger] graph.arcs()[i]).1 == node
            && graph.edges()[i].to == port {
        let i = choose|i: int|
            0 <= i < graph.arcs().len() && (#[trigger] graph.arcs()[i]).1 == node
                && graph.edges()[i].to == port;
        assert(edge_feeds(graph, i, node, port));
    }
    if port_is_fed(graph, node, port) {
        let i = choose|i: int| #[trigger] edge_feeds(graph, i, node, port);
        assert(graph.arcs()[i].1 == node);
    }
    if exists|i: int, j: int|
        0 <= i < j < graph.arcs().len() && (#[trigger] graph.arcs()[i]).1 == node && (
        #[trigger] graph.arcs()[j]).1 == node && graph.edges()[i].to == port
            && graph.edges()[j].to == port {
        let (i, j) = choose|i: int, j: int|
            0 <= i < j < graph.arcs().len() && (#[trigger] graph.arcs()[i]).1 == node && (
            #[trigger] graph.arcs()[j]).1 == node && graph.edges()[i].to == port
                && graph.edges()[j].to == port;
        assert(edge_feeds(graph, i, node, port) && edge_feeds(graph, j, node, port));
    }
    if port_is_fed_twice(graph, node, port) {
        let (i, j) = choose|i: int, j: int|
            i != j && #[trigger] edge_feeds(graph, i, node, port) && #[trigger] edge_feeds(
                graph,
                j,
                node,
                port,
            );
        assert(graph.arcs()[i].1 == node && graph.arcs()[j].1 == node);
        assert(i < j || j < i);
    }
}

/// The inputs of a node are complete if no two edges end at one port of it and an edge ends at
/// every port that it lists.
pub proof fn law_what_complete_means<T>(graph: Graph<NodeType<T>, DagEdgeType>, node: int)
    ensures
        inputs_are_complete(graph, node) <==> {
            &&& forall|i: int, j: int|
                0 <= i < j < graph.arcs().len() && (#[trigger] graph.arcs()[i]).1 == node && (
                #[trigger] graph.arcs()[j]).1 == node ==> graph.edges()[i].to
                    != graph.edges()[j].to
            &&& forall|port: PortHandle| #[trigger]
                graph.nodes()[node].kind.input_ports().contains(port) ==> exists|i: int|
                    0 <= i < graph.arcs().len() && (#[trigger] graph.arcs()[i]).1 == node
                        && graph.edges()[i].to == port
        },
{
    let ports = graph.nodes()[node].kind.input_ports();
    assert forall|port: PortHandle| #[trigger] port_is_fed(graph, node, port) <==> exists|i: int|
        0 <= i < graph.arcs().len() && (#[trigger] graph.arcs()[i]).1 == node
            && graph.edges()[i].to == port by {
        law_what_fed_means(graph, node, port);
    }
    assert forall|port: PortHandle| #[trigger]
        port_is_fed_twice(graph, node, port) <==> exists|i: int, j: int|
        0 <= i < j < graph.arcs().len() && (#[trigger] graph.arcs()[i]).1 == node && (
        #[trigger] graph.arcs()[j]).1 == node && graph.edges()[i].to == port
            && graph.edges()[j].to == port by {
        law_what_fed_means(graph, node, port);
    }
    if inputs_are_complete(graph, node) {
        assert forall|i: int, j: int|
            0 <= i < j < graph.arcs().len() && (#[trigger] graph.arcs()[i]).1 == node && (
            #[trigger] graph.arcs()[j]).1 == node implies graph.edges()[i].to
            != graph.edges()[j].to by {
            assert(!port_is_fed_twice(graph, node, graph.edges()[i].to));
        }
        assert forall|port: PortHandle| #[trigger] ports.contains(port) implies exists|i: int|
            0 <= i < graph.arcs().len() && (#[trigger] graph.arcs()[i]).1 == node
                && graph.edges()[i].to == port by {
            assert(port_is_fed(graph, node, port));
        }
    }
}

/// The port that is reported as fed twice is fed twice, and is the first such port that is found
/// when the edges are looked at from the last one on: after the earlier of its two edges, no two
/// edges end at one port of the node.
pub proof fn law_reported_duplicate_inputs<T>(
    graph: Graph<NodeType<T>, DagEdgeType>,
    node: int,
    port: PortHandle,
)
    requires
        is_duplicate_input(graph, node, port),
    ensures
        exists|i: int| {
            &&& 0 <= i < graph.arcs().len()
            &&& (#[trigger] graph.arcs()[i]).1 == node
            &&& graph.edges()[i].to == port
            &&& exists|j: int|
                i < j < graph.arcs().len() && (#[trigger] graph.arcs()[j]).1 == node
                    && graph.edges()[j].to == port
            &&& forall|a: int, b: int|
                i < a < b < graph.arcs().len() && (#[trigger] graph.arcs()[a]).1 == node && (
                #[trigger] graph.arcs()[b]).1 == node ==> graph.edges()[a].to
                    != graph.edges()[b].to
        },
{
    let i = choose|i: int| #[trigger]
        edge_repeats(graph, i, node, port) && forall|j: int, p: PortHandle| #[trigger]
            edge_repeats(graph, j, node, p) ==> j <= i;
    let j = choose|j: int| i < j && #[trigger] edge_feeds(graph, j, node, port);
    assert(graph.arcs()[i].1 == node && graph.arcs()[j].1 == node);
    assert forall|a: int, b: int|
        i < a < b < graph.arcs().len() && (#[trigger] graph.arcs()[a]).1 == node && (
        #[trigger] graph.arcs()[b]).1 == node implies graph.edges()[a].to
        != graph.edges()[b].to by {
        if graph.edges()[a].to == graph.edges()[b].to {
            let p = graph.edges()[a].to;
            assert(edge_feeds(graph, a, node, p) && edge_feeds(graph, b, node, p));
            assert(edge_repeats(graph, a, node, p));
        }
    }
}

/// The port that is reported as missing is listed, no edge ends at it, and it is the first such
/// port of the list.
pub proof fn law_reported_missing_inputs<T>(
    graph: Graph<NodeType<T>, DagEdgeType>,
    node: int,
    ports: Seq<PortHandle>,
    port: PortHandle,
) -> (k: int)
    requires
        is_missing_input(graph, node, ports, port),
    ensures
        forall|i: int|
            0 <= i < graph.arcs().len() && (#[trigger] graph.arcs()[i]).1 == node
                ==> graph.edges()[i].to != port,
        0 <= k < ports.len(),
        ports[k] == port,
        forall|earlier: PortHandle| #[trigger]
            ports.take(k).contains(earlier) ==> exists|i: int|
                0 <= i < graph.arcs().len() && (#[trigger] graph.arcs()[i]).1 == node
                    && graph.edges()[i].to == earlier,
{
    let k = choose|k: int|
        0 <= k < ports.len() && #[trigger] ports[k] == port && !port_is_fed(graph, node, port)
            && forall|j: int| 0 <= j < k ==> port_is_fed(graph, node, #[trigger] ports[j]);
    law_what_fed_means(graph, node, port);
    assert(ports[k] == port);
    assert forall|earlier: PortHandle| #[trigger]
        ports.take(k).contains(earlier) implies exists|i: int|
        0 <= i < graph.arcs().len() && (#[trigger] graph.arcs()[i]).1 == node
            && graph.edges()[i].to == earlier by {
        let j = choose|j: int| 0 <= j < k && ports.take(k)[j] == earlier;
        assert(port_is_fed(graph, node, ports[j]));
        law_what_fed_means(graph, node, earlier);
    }
    k
}

/// What a node is handed: for each edge that ends at it, under the port of the edge, the schema of
/// the edge and a clone of its context, and nothing else.
pub proof fn law_gathered_inputs<T: Clone>(
    graph: Graph<NodeType<T>, DagEdgeType>,
    edges: Seq<Option<(EdgeType, T)>>,
    node: int,
    inputs: Map<PortHandle, (Schema, T)>,
)
    requires
        inputs_are_gathered(graph, edges, node, inputs),
    ensures
        forall|i: int|
            0 <= i < graph.arcs().len() && (#[trigger] graph.arcs()[i]).1 == node ==> {
                let port = graph.edges()[i].to;
                &&& edges[i] is Some
                &&& inputs.contains_key(port)
                &&& inputs[port].0@ == edges[i]->Some_0.0.schema@
                &&& cloned(edges[i]->Some_0.1, inputs[port].1)
            },
        forall|port: PortHandle| #[trigger]
            inputs.contains_key(port) ==> exists|i: int|
                0 <= i < graph.arcs().len() && (#[trigger] graph.arcs()[i]).1 == node
                    && graph.edges()[i].to == port,
{
    assert forall|i: int|
        0 <= i < graph.arcs().len() && (#[trigger] graph.arcs()[i]).1 == node implies {
        let port = graph.edges()[i].to;
        &&& edges[i] is Some
        &&& inputs.contains_key(port)
        &&& inputs[port].0@ == edges[i]->Some_0.0.schema@
        &&& cloned(edges[i]->Some_0.1, inputs[port].1)
    } by {
        let port = graph.edges()[i].to;
        assert(edge_feeds(graph, i, node, port));
        assert(port_is_fed(graph, node, port));
    }
    assert forall|port: PortHandle| #[trigger] inputs.contains_key(port) implies exists|i: int|
        0 <= i < graph.arcs().len() && (#[trigger] graph.arcs()[i]).1 == node
            && graph.edges()[i].to == port by {
        law_what_fed_means(graph, node, port);
    }
}

/// An edge that has been made joins the ports of the pipeline's edge, has the type of the first
/// output port of that name that the factory lists, and carries a schema and a context that the
/// factory of its start, asked for that very port and with these inputs, may give.
pub proof fn law_made_edges<T>(
    graph: Graph<NodeType<T>, DagEdgeType>,
    edges: Seq<Option<(EdgeType, T)>>,
    i: int,
    inputs: Map<PortHandle, (Schema, T)>,
)
    requires
        edge_is_made(graph, edges, i, inputs),
    ensures
        edges[i] is Some,
        ({
            let (edge, context) = edges[i]->Some_0;
            let port = graph.edges()[i].from;
            &&& edge.output_port == port
            &&& edge.input_port == graph.edges()[i].to
            &&& match graph.nodes()[graph.arcs()[i].0 as int].kind {
                NodeKind::Source(source) => {
                    &&& source.may_output(port, Ok((edge.schema, context)))
                    &&& exists|k: int| {
                        &&& 0 <= k < source.output_ports().len()
                        &&& (#[trigger] source.output_ports()[k]).handle == port
                        &&& source.output_ports()[k].typ == edge.output_port_type
                        &&& forall|j: int|
                            0 <= j < k ==> (#[trigger] source.output_ports()[j]).handle != port
                    }
                },
                NodeKind::Processor(processor) => {
                    &&& processor.may_output(port, inputs, Ok((edge.schema, context)))
                    &&& exists|k: int| {
                        &&& 0 <= k < processor.output_ports().len()
                        &&& (#[trigger] processor.output_ports()[k]).handle == port
                        &&& processor.output_ports()[k].typ == edge.output_port_type
                        &&& forall|j: int|
                            0 <= j < k ==> (#[trigger] processor.output_ports()[j]).handle != port
                    }
                },
                NodeKind::Sink(_) => false,
            }
        }),
{
    let kind = graph.nodes()[graph.arcs()[i].0 as int].kind;
    let port = graph.edges()[i].from;
    let (edge, context) = edges[i]->Some_0;
    let k = choose|k: int| #[trigger]
        is_first_port(kind.output_ports(), port, k) && edge.output_port_type
            == kind.output_ports()[k].typ;
    assert(kind.output_ports()[k].handle == port);
}

/// The first port of a name has that name, and no port before it has.
pub proof fn law_first_ports(ports: Seq<OutputPortDef>, handle: PortHandle, i: int)
    ensures
        is_first_port(ports, handle, i) <==> {
            &&& 0 <= i < ports.len()
            &&& ports[i].handle == handle
            &&& forall|j: int| 0 <= j < i ==> (#[trigger] ports[j]).handle != handle
        },
{
}

/// What a populated pipeline carries, with the contexts of its edges and what its nodes were
/// handed. It has the nodes and arcs of the pipeline.
///
/// - Every edge joins the ports of the pipeline's edge. Where it starts at a source, it carries a
///   schema and a context that the source may give for the very port that the edge starts at; where
///   it starts at a processor, ones that the processor may give for that port and the inputs of the
///   node.
/// - The inputs of a processor or a sink hold, for each edge that ends at it, under the port of the
///   edge, its schema and a clone of its context, and nothing else. No two edges end at one port,
///   and an edge ends at every port that is listed.
/// - A sink has been prepared with its inputs.
pub proof fn law_what_a_populated_pipeline_carries<T: Clone>(
    graph: Graph<NodeType<T>, DagEdgeType>,
    populated: Graph<NodeType<T>, EdgeType>,
) -> (carried: (Seq<T>, Seq<Map<PortHandle, (Schema, T)>>))
    requires
        graph.wf(),
        is_populated_graph(graph, populated),
    ensures
        populated.wf(),
        populated.nodes() == graph.nodes(),
        populated.arcs() == graph.arcs(),
        populated.edges().len() == graph.edges().len(),
        forall|i: int|
            0 <= i < graph.edges().len() ==> {
                let edge = #[trigger] populated.edges()[i];
                let port = graph.edges()[i].from;
                &&& edge.output_port == port
                &&& edge.input_port == graph.edges()[i].to
                &&& match graph.nodes()[graph.arcs()[i].0 as int].kind {
                    NodeKind::Source(source) => source.may_output(
                        port,
                        Ok((edge.schema, carried.0[i])),
                    ),
                    NodeKind::Processor(processor) => processor.may_output(
                        port,
                        carried.1[graph.arcs()[i].0 as int],
                        Ok((edge.schema, carried.0[i])),
                    ),
                    NodeKind::Sink(_) => false,
                }
            },
        forall|i: int| {
            let n = (#[trigger] graph.arcs()[i]).1 as int;
            let port = graph.edges()[i].to;
            0 <= i < graph.edges().len() && graph.nodes()[n].kind !is Source ==> {
                &&& carried.1[n].contains_key(port)
                &&& carried.1[n][port].0@ == populated.edges()[i].schema@
                &&& cloned(carried.0[i], carried.1[n][port].1)
            }
        },
        forall|n: int, port: PortHandle|
            0 <= n < graph.nodes().len() && graph.nodes()[n].kind !is Source
                && #[trigger] carried.1[n].contains_key(port) ==> exists|i: int|
                0 <= i < graph.arcs().len() && (#[trigger] graph.arcs()[i]).1 == n
                    && graph.edges()[i].to == port,
        forall|n: int, k: int|
            0 <= n < graph.nodes().len() && graph.nodes()[n].kind !is Source && 0 <= k
                < graph.nodes()[n].kind.input_ports().len() ==> carried.1[n].contains_key(
                #[trigger] graph.nodes()[n].kind.input_ports()[k],
            ),
        forall|i: int, j: int|
            0 <= i < j < graph.edges().len() && (#[trigger] graph.arcs()[i]).1 == (
            #[trigger] graph.arcs()[j]).1 && graph.nodes()[graph.arcs()[i].1 as int].kind
                !is Source ==> graph.edges()[i].to != graph.edges()[j].to,
        forall|n: int|
            0 <= n < graph.nodes().len() ==> ((#[trigger] graph.nodes()[n]).kind matches
                NodeKind::Sink(sink) ==> sink.may_prepare(carried.1[n], None)),
{
    let population = choose|population: Population<T>| #[trigger]
        is_populated(graph, population) && holds_edges_of(populated.edges(), population);
    let contexts = Seq::new(
        population.edges.len(),
        |i: int| population.edges[i]->Some_0.1,
    );
    let inputs = population.inputs;
    assert forall|i: int| 0 <= i < graph.edges().len() implies {
        let edge = #[trigger] populated.edges()[i];
        let port = graph.edges()[i].from;
        &&& edge.output_port == port
        &&& edge.input_port == graph.edges()[i].to
        &&& match graph.nodes()[graph.arcs()[i].0 as int].kind {
            NodeKind::Source(source) => source.may_output(port, Ok((edge.schema, contexts[i]))),
            NodeKind::Processor(processor) => processor.may_output(
                port,
                inputs[graph.arcs()[i].0 as int],
                Ok((edge.schema, contexts[i])),
            ),
            NodeKind::Sink(_) => false,
        }
    } by {
        let s = graph.arcs()[i].0 as int;
        assert(node_is_populated(graph, population, s));
        assert(edge_leaves(graph, i, s));
        law_made_edges(graph, population.edges, i, inputs[s]);
        assert(populated.edges()[i] == population.edges[i]->Some_0.0);
    }
    assert forall|i: int| {
        let n = (#[trigger] graph.arcs()[i]).1 as int;
        let port = graph.edges()[i].to;
        0 <= i < graph.edges().len() && graph.nodes()[n].kind !is Source ==> {
            &&& inputs[n].contains_key(port)
            &&& inputs[n][port].0@ == populated.edges()[i].schema@
            &&& cloned(contexts[i], inputs[n][port].1)
        }
    } by {
        let n = graph.arcs()[i].1 as int;
        if 0 <= i < graph.edges().len() && graph.nodes()[n].kind !is Source {
            assert(node_is_populated(graph, population, n));
            law_gathered_inputs(graph, population.edges, n, inputs[n]);
            assert(populated.edges()[i] == population.edges[i]->Some_0.0);
        }
    }
    assert forall|n: int, port: PortHandle|
        0 <= n < graph.nodes().len() && graph.nodes()[n].kind !is Source
            && #[trigger] inputs[n].contains_key(port) implies exists|i: int|
        0 <= i < graph.arcs().len() && (#[trigger] graph.arcs()[i]).1 == n
            && graph.edges()[i].to == port by {
        assert(node_is_populated(graph, population, n));
        law_gathered_inputs(graph, population.edges, n, inputs[n]);
    }
    assert forall|n: int, k: int|
        0 <= n < graph.nodes().len() && graph.nodes()[n].kind !is Source && 0 <= k
            < graph.nodes()[n].kind.input_ports().len() implies inputs[n].contains_key(
        #[trigger] graph.nodes()[n].kind.input_ports()[k],
    ) by {
        let port = graph.nodes()[n].kind.input_ports()[k];
        assert(graph.nodes()[n].kind.input_ports().contains(port));
        assert(node_is_populated(graph, population, n));
        law_what_complete_means(graph, n);
        law_gathered_inputs(graph, population.edges, n, inputs[n]);
        let i = choose|i: int|
            0 <= i < graph.arcs().len() && (#[trigger] graph.arcs()[i]).1 == n
                && graph.edges()[i].to == port;
        assert(graph.arcs()[i].1 == n);
    }
    assert forall|i: int, j: int|
        0 <= i < j < graph.edges().len() && (#[trigger] graph.arcs()[i]).1 == (
        #[trigger] graph.arcs()[j]).1 && graph.nodes()[graph.arcs()[i].1 as int].kind
            !is Source implies graph.edges()[i].to != graph.edges()[j].to by {
        let n = graph.arcs()[i].1 as int;
        assert(node_is_populated(graph, population, n));
        law_what_complete_means(graph, n);
    }
    assert forall|n: int| 0 <= n < graph.nodes().len() implies ((#[trigger] graph.nodes()[n]).kind
        matches NodeKind::Sink(sink) ==> sink.may_prepare(inputs[n], None)) by {
        assert(node_is_populated(graph, population, n));
    }
    (contexts, inputs)
}

/// Why the population of a pipeline stops at a node: two edges end at one port of a processor or a
/// sink; or none do, and no edge ends at a port that it lists; or its factory, handed the schemas
/// and contexts of the edges that end at the node, may fail in that way: a source or a processor
/// when it is asked for the port of an edge that starts at the node, a sink when it is prepared.
pub proof fn law_why_a_population_stops<T: Clone>(
    graph: Graph<NodeType<T>, DagEdgeType>,
    population: Population<T>,
    node: int,
    error: ExecutionError,
)
    requires
        graph.wf(),
        population_stops(graph, population, node, error),
    ensures
        0 <= node < graph.nodes().len(),
        match error {
            ExecutionError::DuplicateInput { node: handle, port } => {
                &&& handle == graph.nodes()[node].handle
                &&& graph.nodes()[node].kind !is Source
                &&& exists|i: int, j: int|
                    0 <= i < j < graph.arcs().len() && (#[trigger] graph.arcs()[i]).1 == node && (
                    #[trigger] graph.arcs()[j]).1 == node && graph.edges()[i].to == port
                        && graph.edges()[j].to == port
            },
            ExecutionError::MissingInput { node: handle, port } => {
                &&& handle == graph.nodes()[node].handle
                &&& graph.nodes()[node].kind !is Source
                &&& graph.nodes()[node].kind.input_ports().contains(port)
                &&& forall|i: int|
                    0 <= i < graph.arcs().len() && (#[trigger] graph.arcs()[i]).1 == node
                        ==> graph.edges()[i].to != port
                &&& forall|i: int, j: int|
                    0 <= i < j < graph.arcs().len() && (#[trigger] graph.arcs()[i]).1 == node && (
                    #[trigger] graph.arcs()[j]).1 == node ==> graph.edges()[i].to
                        != graph.edges()[j].to
            },
            ExecutionError::Factory(failure) => {
                let inputs = population.inputs[node];
                &&& graph.nodes()[node].kind !is Source ==> {
                    &&& forall|i: int|
                        0 <= i < graph.arcs().len() && (#[trigger] graph.arcs()[i]).1 == node ==> {
                            let port = graph.edges()[i].to;
                            &&& population.edges[i] is Some
                            &&& inputs.contains_key(port)
                            &&& inputs[port].0@ == population.edges[i]->Some_0.0.schema@
                            &&& cloned(population.edges[i]->Some_0.1, inputs[port].1)
                        }
                    &&& forall|k: int|
                        0 <= k < graph.nodes()[node].kind.input_ports().len()
                            ==> inputs.contains_key(
                            #[trigger] graph.nodes()[node].kind.input_ports()[k],
                        )
                }
                &&& match graph.nodes()[node].kind {
                    NodeKind::Source(source) => exists|i: int|
                        0 <= i < graph.arcs().len() && (#[trigger] graph.arcs()[i]).0 == node
                            && source.may_output(graph.edges()[i].from, Err(failure)),
                    NodeKind::Processor(processor) => exists|i: int|
                        0 <= i < graph.arcs().len() && (#[trigger] graph.arcs()[i]).0 == node
                            && processor.may_output(graph.edges()[i].from, inputs, Err(failure)),
                    NodeKind::Sink(sink) => sink.may_prepare(inputs, Some(failure)),
                }
            },
            _ => false,
        },
{
    let kind = graph.nodes()[node].kind;
    let inputs = population.inputs[node];
    match error {
        ExecutionError::DuplicateInput { port, .. } => {
            lemma_duplicate_input_is_fed_twice(graph, node, port);
            law_what_fed_means(graph, node, port);
        },
        ExecutionError::MissingInput { port, .. } => {
            let k = law_reported_missing_inputs(graph, node, kind.input_ports(), port);
            assert(kind.input_ports()[k] == port);
            assert forall|i: int, j: int|
                0 <= i < j < graph.arcs().len() && (#[trigger] graph.arcs()[i]).1 == node && (
                #[trigger] graph.arcs()[j]).1 == node implies graph.edges()[i].to
                != graph.edges()[j].to by {
                law_what_fed_means(graph, node, graph.edges()[i].to);
                assert(!port_is_fed_twice(graph, node, graph.edges()[i].to));
            }
        },
        ExecutionError::Factory(failure) => {
            if kind !is Source {
                law_gathered_inputs(graph, population.edges, node, inputs);
                law_what_complete_means(graph, node);
                assert forall|k: int| 0 <= k < kind.input_ports().len() implies inputs.contains_key(
                    #[trigger] kind.input_ports()[k],
                ) by {
                    assert(kind.input_ports().contains(kind.input_ports()[k]));
                }
            }
            if kind !is Sink {
                let i = choose|i: int| #[trigger]
                    output_fails(graph, population.edges, inputs, i, node, failure);
                assert(graph.arcs()[i].0 == node);
            }
        },
        _ => {},
    }
}

/// Nothing stops the population of a pipeline in which exactly one edge ends at every input port
/// that a processor or a sink lists, and none elsewhere twice, and in which no factory may fail:
/// no source and no processor when it is asked for the port of an edge that starts at it, and no
/// sink when it is prepared.
pub proof fn law_a_good_pipeline_is_not_refused<T: Clone>(
    graph: Graph<NodeType<T>, DagEdgeType>,
    population: Population<T>,
    node: int,
    error: ExecutionError,
)
    requires
        graph.wf(),
        forall|i: int, j: int|
            0 <= i < j < graph.arcs().len() && (#[trigger] graph.arcs()[i]).1 == (
            #[trigger] graph.arcs()[j]).1 && graph.nodes()[graph.arcs()[i].1 as int].kind
                !is Source ==> graph.edges()[i].to != graph.edges()[j].to,
        forall|n: int, port: PortHandle|
            0 <= n < graph.nodes().len() && graph.nodes()[n].kind !is Source
                && #[trigger] graph.nodes()[n].kind.input_ports().contains(port) ==> exists|i: int|
                0 <= i < graph.arcs().len() && (#[trigger] graph.arcs()[i]).1 == n
                    && graph.edges()[i].to == port,
        forall|i: int| {
            let port = graph.edges()[i].from;
            0 <= i < graph.arcs().len() ==> match graph.nodes()[(
            #[trigger] graph.arcs()[i]).0 as int].kind {
                NodeKind::Source(source) => forall|failure: FactoryError|
                    !#[trigger] source.may_output(port, Err(failure)),
                NodeKind::Processor(processor) => forall|
                    inputs: Map<PortHandle, (Schema, T)>,
                    failure: FactoryError,
                | !#[trigger] processor.may_output(port, inputs, Err(failure)),
                NodeKind::Sink(_) => true,
            }
        },
        forall|n: int|
            0 <= n < graph.nodes().len() ==> ((#[trigger] graph.nodes()[n]).kind matches
                NodeKind::Sink(sink) ==> forall|
                inputs: Map<PortHandle, (Schema, T)>,
                failure: FactoryError,
            | !#[trigger] sink.may_prepare(inputs, Some(failure))),
    ensures
        !population_stops(graph, population, node, error),
{
    if population_stops(graph, population, node, error) {
        law_why_a_population_stops(graph, population, node, error);
        if let ExecutionError::MissingInput { port, .. } = error {
            assert(graph.nodes()[node].kind.input_ports().contains(port));
        }
    }
}

/// The input schemas of a node: under each port at which an edge ends, and under no other, the
/// schema of the earliest edge that ends there, with its identifier, fields and primary key.
pub proof fn law_input_schemas<N, E: EdgeHaveSchema>(
    graph: Graph<N, E>,
    node: int,
    schemas: Map<PortHandle, Schema>,
)
    requires
        are_input_schemas(graph, node, schemas),
    ensures
        forall|i: int|
            0 <= i < graph.arcs().len() && (#[trigger] graph.arcs()[i]).1 == node
                ==> schemas.contains_key(graph.edges()[i].spec_input_port()),
        forall|port: PortHandle| #[trigger]
            schemas.contains_key(port) ==> exists|i: int| {
                let schema = graph.edges()[i].spec_schema();
                &&& 0 <= i < graph.arcs().len()
                &&& (#[trigger] graph.arcs()[i]).1 == node
                &&& graph.edges()[i].spec_input_port() == port
                &&& schemas[port]@ == schema@
                &&& schemas[port].identifier == schema.identifier
                &&& schemas[port].primary_index@ == schema.primary_index@
                &&& schemas[port].fields@.len() == schema.fields@.len()
                &&& forall|j: int|
                    0 <= j < i && (#[trigger] graph.arcs()[j]).1 == node
                        ==> graph.edges()[j].spec_input_port() != port
            },
{
    assert forall|i: int|
        0 <= i < graph.arcs().len() && (#[trigger] graph.arcs()[i]).1
            == node implies schemas.contains_key(graph.edges()[i].spec_input_port()) by {
        assert(edge_arrives(graph, i, node, graph.edges()[i].spec_input_port()));
    }
    assert forall|port: PortHandle| #[trigger] schemas.contains_key(port) implies exists|i: int| {
        let schema = graph.edges()[i].spec_schema();
        &&& 0 <= i < graph.arcs().len()
        &&& (#[trigger] graph.arcs()[i]).1 == node
        &&& graph.edges()[i].spec_input_port() == port
        &&& schemas[port]@ == schema@
        &&& schemas[port].identifier == schema.identifier
        &&& schemas[port].primary_index@ == schema.primary_index@
        &&& schemas[port].fields@.len() == schema.fields@.len()
        &&& forall|j: int|
            0 <= j < i && (#[trigger] graph.arcs()[j]).1 == node
                ==> graph.edges()[j].spec_input_port() != port
    } by {
        let i = choose|i: int| #[trigger]
            edge_arrives_first(graph, i, node, port) && schemas[port]@
                == graph.edges()[i].spec_schema()@;
        law_schemas_that_say_the_same(schemas[port], graph.edges()[i].spec_schema());
        assert(graph.arcs()[i].1 == node);
        assert forall|j: int|
            0 <= j < i && (#[trigger] graph.arcs()[j]).1
                == node implies graph.edges()[j].spec_input_port() != port by {
            assert(!edge_arrives(graph, j, node, port));
        }
    }
}

/// The output schemas of a node: under each port at which an edge starts, and under no other, the
/// schema of the earliest edge that starts there, with its identifier, fields and primary key.
pub proof fn law_output_schemas<N, E: EdgeHaveSchema>(
    graph: Graph<N, E>,
    node: int,
    schemas: Map<PortHandle, Schema>,
)
    requires
        are_output_schemas(graph, node, schemas),
    ensures
        forall|i: int|
            0 <= i < graph.arcs().len() && (#[trigger] graph.arcs()[i]).0 == node
                ==> schemas.contains_key(graph.edges()[i].spec_output_port()),
        forall|port: PortHandle| #[trigger]
            schemas.contains_key(port) ==> exists|i: int| {
                let schema = graph.edges()[i].spec_schema();
                &&& 0 <= i < graph.arcs().len()
                &&& (#[trigger] graph.arcs()[i]).0 == node
                &&& graph.edges()[i].spec_output_port() == port
                &&& schemas[port]@ == schema@
                &&& schemas[port].identifier == schema.identifier
                &&& schemas[port].primary_index@ == schema.primary_index@
                &&& schemas[port].fields@.len() == schema.fields@.len()
                &&& forall|j: int|
                    0 <= j < i && (#[trigger] graph.arcs()[j]).0 == node
                        ==> graph.edges()[j].spec_output_port() != port
            },
{
    assert forall|i: int|
        0 <= i < graph.arcs().len() && (#[trigger] graph.arcs()[i]).0
            == node implies schemas.contains_key(graph.edges()[i].spec_output_port()) by {
        assert(edge_departs(graph, i, node, graph.edges()[i].spec_output_port()));
    }
    assert forall|port: PortHandle| #[trigger] schemas.contains_key(port) implies exists|i: int| {
        let schema = graph.edges()[i].spec_schema();
        &&& 0 <= i < graph.arcs().len()
        &&& (#[trigger] graph.arcs()[i]).0 == node
        &&& graph.edges()[i].spec_output_port() == port
        &&& schemas[port]@ == schema@
        &&& schemas[port].identifier == schema.identifier
        &&& schemas[port].primary_index@ == schema.primary_index@
        &&& schemas[port].fields@.len() == schema.fields@.len()
        &&& forall|j: int|
            0 <= j < i && (#[trigger] graph.arcs()[j]).0 == node
                ==> graph.edges()[j].spec_output_port() != port
    } by {
        let i = choose|i: int| #[trigger]
            edge_departs_first(graph, i, node, port) && schemas[port]@
                == graph.edges()[i].spec_schema()@;
        law_schemas_that_say_the_same(schemas[port], graph.edges()[i].spec_schema());
        assert(graph.arcs()[i].0 == node);
        assert forall|j: int|
            0 <= j < i && (#[trigger] graph.arcs()[j]).0
                == node implies graph.edges()[j].spec_output_port() != port by {
            assert(!edge_departs(graph, j, node, port));
        }
    }
}

/// What is reported of a sink agrees with the input schemas that are reported of the same node: the
/// schema on the default port has the same identifier, fields and primary key. It is that of an
/// edge that ends at the default port.
pub proof fn law_sinks_report_their_default_input<T>(
    graph: Graph<NodeType<T>, EdgeType>,
    node: int,
    entry: (Schema, StringHashSet),
    schemas: Map<PortHandle, Schema>,
)
    requires
        is_sink_entry(graph, node, entry),
        are_input_schemas(graph, node, schemas),
    ensures
        schemas.contains_key(DEFAULT_PORT_HANDLE),
        ({
            let input = schemas[DEFAULT_PORT_HANDLE];
            &&& entry.0@ == input@
            &&& entry.0.identifier == input.identifier
            &&& entry.0.primary_index@ == input.primary_index@
            &&& entry.0.fields@.len() == input.fields@.len()
            &&& forall|k: int|
                0 <= k < input.fields@.len() ==> (#[trigger] entry.0.fields@[k]).name@
                    == input.fields@[k].name@ && entry.0.fields@[k].typ == input.fields@[k].typ
                    && entry.0.fields@[k].nullable == input.fields@[k].nullable
        }),
        exists|i: int| {
            &&& 0 <= i < graph.arcs().len()
            &&& (#[trigger] graph.arcs()[i]).1 == node
            &&& graph.edges()[i].input_port == DEFAULT_PORT_HANDLE
            &&& entry.0@ == graph.edges()[i].schema@
            &&& entry.0.identifier == graph.edges()[i].schema.identifier
            &&& entry.0.primary_index@ == graph.edges()[i].schema.primary_index@
            &&& entry.0.fields@.len() == graph.edges()[i].schema.fields@.len()
        },
{
    let i = choose|i: int| #[trigger]
        edge_arrives_first(graph, i, node, DEFAULT_PORT_HANDLE) && entry.0@
            == graph.edges()[i].schema@;
    assert(edge_arrives(graph, i, node, DEFAULT_PORT_HANDLE));
    assert(schemas.contains_key(DEFAULT_PORT_HANDLE));
    let j = choose|j: int| #[trigger]
        edge_arrives_first(graph, j, node, DEFAULT_PORT_HANDLE) && schemas[DEFAULT_PORT_HANDLE]@
            == graph.edges()[j].spec_schema()@;
    assert(edge_arrives(graph, j, node, DEFAULT_PORT_HANDLE));
    assert(i == j);
    law_schemas_that_say_the_same(entry.0, schemas[DEFAULT_PORT_HANDLE]);
    law_schemas_that_say_the_same(entry.0, graph.edges()[i].schema);
    assert(graph.arcs()[i].1 == node);
}

/// The schema that is reported of a sink is the one that its factory was handed on the default
/// port.
pub proof fn law_sinks_report_what_they_were_handed<T: Clone>(
    graph: Graph<NodeType<T>, DagEdgeType>,
    population: Population<T>,
    populated: Graph<NodeType<T>, EdgeType>,
    node: int,
    entry: (Schema, StringHashSet),
)
    requires
        graph.wf(),
        is_populated(graph, population),
        holds_edges_of(populated.edges(), population),
        populated.nodes() == graph.nodes(),
        populated.arcs() == graph.arcs(),
        is_sink(populated, node),
        is_sink_entry(populated, node, entry),
    ensures
        population.inputs[node].contains_key(DEFAULT_PORT_HANDLE),
        entry.0@ == population.inputs[node][DEFAULT_PORT_HANDLE].0@,
        entry.0.identifier == population.inputs[node][DEFAULT_PORT_HANDLE].0.identifier,
        entry.0.primary_index@ == population.inputs[node][DEFAULT_PORT_HANDLE].0.primary_index@,
        entry.0.fields@.len() == population.inputs[node][DEFAULT_PORT_HANDLE].0.fields@.len(),
{
    let i = choose|i: int| #[trigger]
        edge_arrives_first(populated, i, node, DEFAULT_PORT_HANDLE) && entry.0@
            == populated.edges()[i].schema@;
    assert(edge_arrives(populated, i, node, DEFAULT_PORT_HANDLE));
    let s = graph.arcs()[i].0 as int;
    assert(node_is_populated(graph, population, s));
    assert(edge_leaves(graph, i, s));
    law_made_edges(graph, population.edges, i, population.inputs[s]);
    assert(populated.edges()[i] == population.edges[i]->Some_0.0);
    assert(node_is_populated(graph, population, node));
    law_gathered_inputs(graph, population.edges, node, population.inputs[node]);
    assert(graph.arcs()[i].1 == node);
    law_schemas_that_say_the_same(entry.0, population.inputs[node][DEFAULT_PORT_HANDLE].0);
}

/// The sources of a node are the sources at which the arcs to it start, and the sources of all
/// nodes at which the arcs to it start, and no others.
pub proof fn law_sources_come_along_arcs<T>(
    graph: Graph<NodeType<T>, EdgeType>,
    node: usize,
    id: Seq<char>,
)
    ensures
        source_ids(graph, node).contains(id) <==> exists|i: int| {
            let start = (#[trigger] graph.arcs()[i]).0;
            &&& 0 <= i < graph.arcs().len()
            &&& graph.arcs()[i].1 == node
            &&& {
                ||| graph.nodes()[start as int].kind is Source
                    && graph.nodes()[start as int].handle.id@ == id
                ||| source_ids(graph, start).contains(id)
            }
        },
{
    let arcs = graph.arcs();
    if source_ids(graph, node).contains(id) {
        let m = choose|m: usize| #[trigger]
            precedes(arcs, m, node) && graph.nodes()[m as int].kind is Source
                && graph.nodes()[m as int].handle.id@ == id;
        lemma_precedes_by_last_arc(arcs, m, node);
        let s = choose|s: usize| #[trigger]
            arcs.contains((s, node)) && (m == s || precedes(arcs, m, s));
        let i = choose|i: int| 0 <= i < arcs.len() && arcs[i] == (s, node);
        assert(graph.arcs()[i].0 == s);
    }
    if exists|i: int| {
        let start = (#[trigger] graph.arcs()[i]).0;
        &&& 0 <= i < graph.arcs().len()
        &&& graph.arcs()[i].1 == node
        &&& {
            ||| graph.nodes()[start as int].kind is Source
                && graph.nodes()[start as int].handle.id@ == id
            ||| source_ids(graph, start).contains(id)
        }
    } {
        let i = choose|i: int| {
            let start = (#[trigger] graph.arcs()[i]).0;
            &&& 0 <= i < graph.arcs().len()
            &&& graph.arcs()[i].1 == node
            &&& {
                ||| graph.nodes()[start as int].kind is Source
                    && graph.nodes()[start as int].handle.id@ == id
                ||| source_ids(graph, start).contains(id)
            }
        };
        let s = arcs[i].0;
        assert(arcs[i] == (s, node));
        assert(arcs.contains((s, node)));
        lemma_arc_reaches(arcs, s, node);
        if source_ids(graph, s).contains(id) {
            let m = choose|m: usize| #[trigger]
                precedes(arcs, m, s) && graph.nodes()[m as int].kind is Source
                    && graph.nodes()[m as int].handle.id@ == id;
            lemma_precedes_by_last_arc(arcs, m, node);
        }
    }
}

/// Adding a node puts it at the next index and leaves the other nodes, the edges and what they join
/// as they are.
pub proof fn law_what_adding_a_node_does<T>(
    before: Dag<T>,
    after: Dag<T>,
    node: NodeType<T>,
    index: usize,
)
    requires
        before.adds_node(after, node, index),
    ensures
        after.wf(),
        index == before.spec_graph().nodes().len(),
        after.spec_graph().nodes().len() == index + 1,
        after.spec_graph().nodes()[index as int] == node,
        forall|i: int|
            0 <= i < index ==> #[trigger] after.spec_graph().nodes()[i]
                == before.spec_graph().nodes()[i],
        after.spec_graph().edges() == before.spec_graph().edges(),
        after.spec_graph().arcs() == before.spec_graph().arcs(),
{
}

/// A node has a default input exactly if an edge ends at its default port, and is a sink exactly if
/// it is a node of the graph and a sink.
pub proof fn law_default_inputs<T>(graph: Graph<NodeType<T>, EdgeType>, node: int)
    ensures
        has_default_input(graph, node) <==> exists|i: int|
            0 <= i < graph.arcs().len() && (#[trigger] graph.arcs()[i]).1 == node
                && graph.edges()[i].input_port == DEFAULT_PORT_HANDLE,
        is_sink(graph, node) <==> 0 <= node < graph.nodes().len() && graph.nodes()[node].kind
            is Sink,
{
    if has_default_input(graph, node) {
        let i = choose|i: int| #[trigger] edge_arrives(graph, i, node, DEFAULT_PORT_HANDLE);
        assert(graph.arcs()[i].1 == node);
    }
    if exists|i: int|
        0 <= i < graph.arcs().len() && (#[trigger] graph.arcs()[i]).1 == node
            && graph.edges()[i].input_port == DEFAULT_PORT_HANDLE {
        let i = choose|i: int|
            0 <= i < graph.arcs().len() && (#[trigger] graph.arcs()[i]).1 == node
                && graph.edges()[i].input_port == DEFAULT_PORT_HANDLE;
        assert(edge_arrives(graph, i, node, DEFAULT_PORT_HANDLE));
    }
}

/// A pipeline can be populated exactly if every edge starts at an output port that its start lists.
pub proof fn law_edges_leave_listed_ports<T>(graph: Graph<NodeType<T>, DagEdgeType>)
    requires
        graph.wf(),
    ensures
        edges_leave_ports(graph) <==> forall|i: int|
            0 <= i < graph.arcs().len() ==> exists|k: int|
                0 <= k < graph.nodes()[(#[trigger] graph.arcs()[i]).0 as int].kind.output_ports().len()
                    && (#[trigger] graph.nodes()[graph.arcs()[i].0 as int].kind.output_ports()[k]).handle
                    == graph.edges()[i].from,
{
    if edges_leave_ports(graph) {
        assert forall|i: int| 0 <= i < graph.arcs().len() implies exists|k: int|
            0 <= k < graph.nodes()[(#[trigger] graph.arcs()[i]).0 as int].kind.output_ports().len()
                && (#[trigger] graph.nodes()[graph.arcs()[i].0 as int].kind.output_ports()[k]).handle
                == graph.edges()[i].from by {
            assert(graph.nodes()[graph.arcs()[i].0 as int].kind.has_output_port(
                graph.edges()[i].from,
            ));
        }
    }
}

} // verus!
