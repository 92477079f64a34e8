//! Whether the nodes of a pipeline are connected as their ports ask for.

use vstd::prelude::*;
use vstd::relations::{sorted_by, total_ordering};
use vstd::seq_lib::{group_to_multiset_ensures, lemma_sorted_unique};

use crate::dag::{Dag, EdgeType};
use crate::errors::ConnectivityError;
use crate::graph::Graph;
use crate::node::{NodeKind, NodeType, PortHandle};
use crate::reach::lists_arcs_into;

verus! {

/// An edge starts at the node.
pub open spec fn has_outgoing_edge<T>(graph: Graph<NodeType<T>, EdgeType>, node: int) -> bool {
    exists|i: int| 0 <= i < graph.arcs().len() && (#[trigger] graph.arcs()[i]).0 == node
}

/// Whether the edge at an index ends at the node.
pub open spec fn enters(arcs: Seq<(usize, usize)>, node: int) -> spec_fn(int) -> bool {
    |i: int| arcs[i].1 == node
}

/// The indices of the edges that end at the node, in ascending order.
pub open spec fn edges_entering(arcs: Seq<(usize, usize)>, node: int) -> Seq<int> {
    Seq::new(arcs.len(), |i: int| i).filter(enters(arcs, node))
}

/// The input ports at which edges end at the node, one for each edge.
pub open spec fn connected_ports<T>(
    graph: Graph<NodeType<T>, EdgeType>,
    node: int,
) -> Seq<PortHandle> {
    edges_entering(graph.arcs(), node).map_values(|i: int| graph.edges()[i].to)
}

/// Something is done with what the node sends: it is a sink, or it has an outgoing edge.
pub open spec fn output_is_connected<T>(graph: Graph<NodeType<T>, EdgeType>, node: int) -> bool {
    graph.nodes()[node].kind is Sink || has_outgoing_edge(graph, node)
}

/// The node gets what it needs: it is a source, or it has input ports, and as many edges end at
/// each port as the node lists it.
pub open spec fn input_is_connected<T>(graph: Graph<NodeType<T>, EdgeType>, node: int) -> bool {
    let kind = graph.nodes()[node].kind;
    ||| kind is Source
    ||| kind.input_ports().len() > 0 && kind.input_ports().to_multiset() == connected_ports(
        graph,
        node,
    ).to_multiset()
}

/// Every node is connected.
pub open spec fn is_connected<T>(graph: Graph<NodeType<T>, EdgeType>) -> bool {
    forall|node: int|
        #![trigger output_is_connected(graph, node)]
        #![trigger input_is_connected(graph, node)]
        0 <= node < graph.nodes().len() ==> output_is_connected(graph, node)
            && input_is_connected(graph, node)
}

/// The first node whose output is not connected is `node`.
pub open spec fn output_fails_first<T>(graph: Graph<NodeType<T>, EdgeType>, node: int) -> bool {
    &&& 0 <= node < graph.nodes().len()
    &&& !output_is_connected(graph, node)
    &&& forall|m: int| 0 <= m < node ==> #[trigger] output_is_connected(graph, m)
}

/// The output of every node is connected, and the first node whose input is not is `node`.
pub open spec fn input_fails_first<T>(graph: Graph<NodeType<T>, EdgeType>, node: int) -> bool {
    &&& forall|m: int|
        0 <= m < graph.nodes().len() ==> #[trigger] output_is_connected(graph, m)
    &&& 0 <= node < graph.nodes().len()
    &&& !input_is_connected(graph, node)
    &&& forall|m: int| 0 <= m < node ==> #[trigger] input_is_connected(graph, m)
}

/// `sorted` holds what `ports` holds, in ascending order.
pub open spec fn is_sorting_of(sorted: Seq<PortHandle>, ports: Seq<PortHandle>) -> bool {
    &&& sorted.to_multiset() == ports.to_multiset()
    &&& forall|i: int, j: int| 0 <= i < j < sorted.len() ==> sorted[i] <= sorted[j]
}

/// What is wrong with `node`, the first node that fails.
pub open spec fn is_connectivity_error<T>(
    graph: Graph<NodeType<T>, EdgeType>,
    node: int,
    error: ConnectivityError,
) -> bool {
    let kind = graph.nodes()[node].kind;
    match error {
        ConnectivityError::NoOutgoingEdge { node: handle } => {
            &&& output_fails_first(graph, node)
            &&& handle == graph.nodes()[node].handle
        },
        ConnectivityError::NoInputPort { node: handle } => {
            &&& input_fails_first(graph, node)
            &&& handle == graph.nodes()[node].handle
            &&& kind.input_ports().len() == 0
        },
        ConnectivityError::InputPortsMismatch {
            node: handle,
            input_ports,
            connected_input_ports,
        } => {
            &&& input_fails_first(graph, node)
            &&& handle == graph.nodes()[node].handle
            &&& kind.input_ports().len() > 0
            &&& is_sorting_of(input_ports@, kind.input_ports())
            &&& is_sorting_of(connected_input_ports@, connected_ports(graph, node))
        },
    }
}

/// Calls `sort` of a slice, which orders the ports and neither adds nor drops any.
#[verifier::external_body]
fn sort_ports(ports: &mut Vec<PortHandle>)
    ensures
        is_sorting_of(final(ports)@, old(ports)@),
{
    ports.sort()
}

/// Filtering keeps a sequence free of duplicates.
proof fn lemma_filter_no_duplicates<A>(s: Seq<A>, keep: spec_fn(A) -> bool)
    requires
        s.no_duplicates(),
    ensures
        s.filter(keep).no_duplicates(),
    decreases s.len(),
{
    reveal(Seq::filter);
    if s.len() > 0 {
        let rest = s.drop_last();
        lemma_filter_no_duplicates(rest, keep);
        if keep(s.last()) && rest.filter(keep).contains(s.last()) {
            rest.lemma_filter_contains_rev(keep, s.last());
            assert(rest.contains(s.last()));
        }
    }
}

/// The entering edges are those that end at the node, each once.
pub proof fn lemma_edges_entering(arcs: Seq<(usize, usize)>, node: int)
    ensures
        edges_entering(arcs, node).no_duplicates(),
        forall|i: int| #[trigger]
            edges_entering(arcs, node).contains(i) <==> 0 <= i < arcs.len() && arcs[i].1 == node,
{
    let all = Seq::new(arcs.len(), |i: int| i);
    let keep = enters(arcs, node);
    lemma_filter_no_duplicates(all, keep);
    assert(edges_entering(arcs, node) == all.filter(keep));
    assert forall|i: int| #[trigger] edges_entering(arcs, node).contains(i) <==> 0 <= i
        < arcs.len() && arcs[i].1 == node by {
        if edges_entering(arcs, node).contains(i) {
            all.lemma_filter_contains_rev(keep, i);
        }
        if 0 <= i < arcs.len() && arcs[i].1 == node {
            assert(all[i] == i);
            assert(keep(all[i]));
        }
    }
}

/// The values of a function on two sequences without duplicates that hold the same elements.
proof fn lemma_same_elements_same_values<A, B>(a: Seq<A>, b: Seq<A>, f: spec_fn(A) -> B)
    requires
        a.no_duplicates(),
        b.no_duplicates(),
        forall|x: A| #[trigger] a.contains(x) <==> b.contains(x),
    ensures
        a.map_values(f).to_multiset() == b.map_values(f).to_multiset(),
    decreases a.len(),
{
    broadcast use group_to_multiset_ensures;

    if a.len() == 0 {
        assert(b.len() == 0) by {
            if b.len() > 0 {
                assert(b.contains(b[0]));
                assert(a.contains(b[0]));
            }
        }
        assert(a.map_values(f) =~= b.map_values(f));
    } else {
        let x = a.last();
        assert(a.contains(x));
        assert(b.contains(x));
        let j = choose|j: int| 0 <= j < b.len() && b[j] == x;
        let a1 = a.drop_last();
        let b1 = b.remove(j);
        assert(b1.no_duplicates());
        assert forall|y: A| #[trigger] a1.contains(y) <==> b1.contains(y) by {
            if a1.contains(y) {
                let i = choose|i: int| 0 <= i < a1.len() && a1[i] == y;
                assert(a[i] == y && y != x);
                assert(a.contains(y));
                assert(b.contains(y));
                let k = choose|k: int| 0 <= k < b.len() && b[k] == y;
                if k < j {
                    assert(b1[k] == y);
                } else {
                    assert(b1[k - 1] == y);
                }
            }
            if b1.contains(y) {
                let i = choose|i: int| 0 <= i < b1.len() && b1[i] == y;
                if i < j {
                    assert(b[i] == y);
                } else {
                    assert(b[i + 1] == y);
                }
                assert(y != x && b.contains(y));
                assert(a.contains(y));
                let k = choose|k: int| 0 <= k < a.len() && a[k] == y;
                assert(a1[k] == y);
            }
        }
        lemma_same_elements_same_values(a1, b1, f);
        assert(a.map_values(f) =~= a1.map_values(f).push(f(x)));
        assert(b.map_values(f).remove(j) =~= b1.map_values(f));
        assert(b.map_values(f).to_multiset().count(f(x)) > 0) by {
            assert(b.map_values(f)[j] == f(x));
            assert(b.map_values(f).contains(f(x)));
        }
        assert(a.map_values(f).to_multiset() =~= b.map_values(f).to_multiset());
    }
}

/// However the edges into a node are listed, their ports are the connected ports.
proof fn lemma_listed_ports<T>(
    graph: Graph<NodeType<T>, EdgeType>,
    node: usize,
    found: Seq<(usize, usize)>,
    ports: Seq<PortHandle>,
)
    requires
        graph.wf(),
        lists_arcs_into(graph.arcs(), node, found),
        ports.len() == found.len(),
        forall|i: int| 0 <= i < found.len() ==> #[trigger] ports[i] == graph.edges()[found[i].0
            as int].to,
    ensures
        ports.to_multiset() == connected_ports(graph, node as int).to_multiset(),
{
    let indices = found.map_values(|edge: (usize, usize)| edge.0 as int);
    let port = |i: int| graph.edges()[i].to;
    assert forall|i: int, j: int|
        0 <= i < indices.len() && 0 <= j < indices.len() && i != j implies indices[i]
        != indices[j] by {
        assert(found.contains(found[i]) && found.contains((found[i].0, found[i].1)));
        assert(found.contains(found[j]) && found.contains((found[j].0, found[j].1)));
    }
    lemma_edges_entering(graph.arcs(), node as int);
    assert forall|i: int| #[trigger] indices.contains(i) <==> edges_entering(
        graph.arcs(),
        node as int,
    ).contains(i) by {
        if indices.contains(i) {
            let k = choose|k: int| 0 <= k < indices.len() && indices[k] == i;
            assert(found.contains((found[k].0, found[k].1)));
        }
        if 0 <= i < graph.arcs().len() && graph.arcs()[i].1 == node {
            let edge = (i as usize, graph.arcs()[i].0);
            assert(graph.arcs()[i] == (edge.1, node));
            assert(found.contains((edge.0, edge.1)));
            let k = choose|k: int| 0 <= k < found.len() && found[k] == edge;
            assert(indices[k] == i);
        }
    }
    lemma_same_elements_same_values(indices, edges_entering(graph.arcs(), node as int), port);
    assert(ports =~= indices.map_values(port));
}

/// The input ports at which edges end at the node.
fn list_connected_ports<T>(graph: &Graph<NodeType<T>, EdgeType>, node: usize) -> (ports: Vec<
    PortHandle,
>)
    requires
        graph.wf(),
        node < graph.nodes().len(),
    ensures
        ports@.to_multiset() == connected_ports(*graph, node as int).to_multiset(),
{
    let found = graph.edges_into(node);
    let mut ports: Vec<PortHandle> = Vec::new();
    let mut i: usize = 0;
    while i < found.len()
        invariant
            graph.wf(),
            lists_arcs_into(graph.arcs(), node, found@),
            i <= found.len(),
            ports@.len() == i,
            forall|j: int| 0 <= j < i ==> #[trigger] ports@[j] == graph.edges()[found@[j].0
                as int].to,
        decreases found.len() - i,
    {
        assert(found@.contains((found@[i as int].0, found@[i as int].1)));
        ports.push(graph.edge(found[i].0).to);
        i += 1;
    }
    proof {
        lemma_listed_ports(*graph, node, found@, ports@);
    }
    ports
}

/// Two sorted lists are equal where they hold the same ports.
proof fn lemma_equal_if_same_ports(a: Seq<PortHandle>, b: Seq<PortHandle>)
    requires
        is_sorting_of(a, a),
        is_sorting_of(b, b),
        a.to_multiset() == b.to_multiset(),
    ensures
        a == b,
{
    let leq = |x: PortHandle, y: PortHandle| x <= y;
    assert(total_ordering(leq));
    assert(sorted_by(a, leq));
    assert(sorted_by(b, leq));
    lemma_sorted_unique(a, b, leq);
}

/// Checks that every source and processor has an outgoing edge, that every processor and sink
/// has an input port, and that its incoming edges are those of its input ports. Reports the first
/// node that fails; all outgoing edges are looked at before any input port.
pub fn validate_connectivity<T>(dag: &Dag<T>) -> (result: Result<(), ConnectivityError>)
    requires
        dag.wf(),
    ensures
        result is Ok <==> is_connected(dag.spec_graph()),
        result matches Err(error) ==> exists|node: int| #[trigger]
            is_connectivity_error(dag.spec_graph(), node, error),
{
    let graph = dag.graph();
    let ghost g = *graph;
    let mut node_index: usize = 0;
    while node_index < graph.node_count()
        invariant
            g == *graph,
            g == dag.spec_graph(),
            g.wf(),
            node_index <= g.nodes().len(),
            forall|m: int| 0 <= m < node_index ==> #[trigger] output_is_connected(g, m),
        decreases g.nodes().len() - node_index,
    {
        let node = graph.node(node_index);
        let sends = match &node.kind {
            NodeKind::Source(_) => true,
            NodeKind::Processor(_) => true,
            NodeKind::Sink(_) => false,
        };
        let outgoing = graph.edges_from(node_index);
        proof {
            if outgoing@.len() > 0 {
                assert(outgoing@.contains(outgoing@[0]));
                assert(g.arcs()[outgoing@[0] as int].0 == node_index);
            }
            if has_outgoing_edge(g, node_index as int) {
                let i = choose|i: int|
                    0 <= i < g.arcs().len() && (#[trigger] g.arcs()[i]).0 == node_index;
                assert(outgoing@.contains(i as usize));
            }
        }
        if sends && outgoing.len() == 0 {
            let error = ConnectivityError::NoOutgoingEdge { node: node.handle.clone() };
            assert(is_connectivity_error(g, node_index as int, error));
            return Err(error);
        }
        node_index += 1;
    }

    let mut node_index: usize = 0;
    while node_index < graph.node_count()
        invariant
            g == *graph,
            g == dag.spec_graph(),
            g.wf(),
            node_index <= g.nodes().len(),
            forall|m: int| 0 <= m < g.nodes().len() ==> #[trigger] output_is_connected(g, m),
            forall|m: int| 0 <= m < node_index ==> #[trigger] input_is_connected(g, m),
        decreases g.nodes().len() - node_index,
    {
        let node = graph.node(node_index);
        let declared = match &node.kind {
            NodeKind::Source(_) => None,
            NodeKind::Processor(processor) => Some(processor.get_input_ports()),
            NodeKind::Sink(sink) => Some(sink.get_input_ports()),
        };
        if let Some(declared) = declared {
            let mut input_ports = declared;
            if input_ports.len() == 0 {
                let error = ConnectivityError::NoInputPort { node: node.handle.clone() };
                assert(is_connectivity_error(g, node_index as int, error));
                return Err(error);
            }
            sort_ports(&mut input_ports);
            let mut connected_input_ports = list_connected_ports(graph, node_index);
            sort_ports(&mut connected_input_ports);
            proof {
                if input_ports@.to_multiset() == connected_input_ports@.to_multiset() {
                    lemma_equal_if_same_ports(input_ports@, connected_input_ports@);
                }
            }
            if !(input_ports == connected_input_ports) {
                let error = ConnectivityError::InputPortsMismatch {
                    node: node.handle.clone(),
                    input_ports,
                    connected_input_ports,
                };
                assert(is_connectivity_error(g, node_index as int, error));
                return Err(error);
            }
            assert(input_ports@ =~= connected_input_ports@);
        }
        node_index += 1;
    }
    Ok(())
}

} // verus!
