//! A pipeline with validated schemas on its edges.

use std::collections::HashMap;
use vstd::hash_map::StringHashMap;
use vstd::hash_set::StringHashSet;
use vstd::prelude::*;
use vstd::std_specs::hash::group_hash_axioms;

use crate::connectivity::is_connected;
use crate::dag::{edge_fits_ports, Dag};
use crate::errors::ExecutionError;
use crate::graph::Graph;
use crate::laws::lemma_connected_inputs;
use crate::node::{NodeKind, NodeType, OutputPortType, PortHandle, DEFAULT_PORT_HANDLE};
use crate::populate::{
    is_populated_graph, lemma_duplicate_input_is_fed_twice, populate_schemas, population_stops,
    Population,
};
use crate::reach::{
    ancestors, lemma_fewer_ancestors, lemma_precedes_by_last_arc, lists_arcs_from,
    lists_arcs_into, precedes,
};
use crate::types::Schema;

verus! {

/// The schemas that a node takes in and gives out, with the contexts beside them.
#[derive(Debug, Clone)]
pub struct NodeSchemas<T> {
    pub input_schemas: HashMap<PortHandle, (Schema, T)>,
    pub output_schemas: HashMap<PortHandle, (Schema, T)>,
}

impl<T> Default for NodeSchemas<T> {
    fn default() -> (schemas: Self)
        ensures
            schemas.input_schemas@ == Map::<PortHandle, (Schema, T)>::empty(),
            schemas.output_schemas@ == Map::<PortHandle, (Schema, T)>::empty(),
    {
        Self::new()
    }
}

impl<T> NodeSchemas<T> {
    /// No schemas.
    pub fn new() -> (schemas: Self)
        ensures
            schemas.input_schemas@ == Map::<PortHandle, (Schema, T)>::empty(),
            schemas.output_schemas@ == Map::<PortHandle, (Schema, T)>::empty(),
    {
        NodeSchemas { input_schemas: HashMap::new(), output_schemas: HashMap::new() }
    }

    /// The given schemas.
    pub fn from(
        input_schemas: HashMap<PortHandle, (Schema, T)>,
        output_schemas: HashMap<PortHandle, (Schema, T)>,
    ) -> (schemas: Self)
        ensures
            schemas.input_schemas == input_schemas,
            schemas.output_schemas == output_schemas,
    {
        NodeSchemas { input_schemas, output_schemas }
    }
}

/// An edge between the ports of two nodes, with the schema of the records that pass over it.
#[derive(Debug, PartialEq, Eq)]
pub struct EdgeType {
    pub output_port: PortHandle,
    pub output_port_type: OutputPortType,
    pub input_port: PortHandle,
    pub schema: Schema,
}

impl EdgeType {
    /// An edge from one port to another.
    pub fn new(
        output_port: PortHandle,
        output_port_type: OutputPortType,
        input_port: PortHandle,
        schema: Schema,
    ) -> (edge: Self)
        ensures
            edge == (EdgeType { output_port, output_port_type, input_port, schema }),
    {
        EdgeType { output_port, output_port_type, input_port, schema }
    }
}

impl Clone for EdgeType {
    fn clone(&self) -> (copy: Self)
        ensures
            copy.output_port == self.output_port,
            copy.output_port_type == self.output_port_type,
            copy.input_port == self.input_port,
            copy.schema@ == self.schema@,
    {
        EdgeType {
            output_port: self.output_port,
            output_port_type: self.output_port_type,
            input_port: self.input_port,
            schema: self.schema.clone(),
        }
    }
}

/// An edge that joins two ports.
pub trait EdgeHavePorts {
    /// The port that the edge starts at.
    spec fn spec_output_port(&self) -> PortHandle;

    /// The port that the edge ends at.
    spec fn spec_input_port(&self) -> PortHandle;

    /// The port that the edge starts at.
    fn output_port(&self) -> (port: PortHandle)
        ensures
            port == self.spec_output_port(),
    ;

    /// The port that the edge ends at.
    fn input_port(&self) -> (port: PortHandle)
        ensures
            port == self.spec_input_port(),
    ;
}

/// An edge that carries records of a known schema.
pub trait EdgeHaveSchema: EdgeHavePorts {
    /// The schema of the records.
    spec fn spec_schema(&self) -> Schema;

    /// The schema of the records.
    fn schema(&self) -> (schema: &Schema)
        ensures
            *schema == self.spec_schema(),
    ;
}

impl EdgeHavePorts for EdgeType {
    open spec fn spec_output_port(&self) -> PortHandle {
        self.output_port
    }

    open spec fn spec_input_port(&self) -> PortHandle {
        self.input_port
    }

    fn output_port(&self) -> (port: PortHandle) {
        self.output_port
    }

    fn input_port(&self) -> (port: PortHandle) {
        self.input_port
    }
}

impl EdgeHaveSchema for EdgeType {
    open spec fn spec_schema(&self) -> Schema {
        self.schema
    }

    fn schema(&self) -> (schema: &Schema) {
        &self.schema
    }
}

/// The edge at `i` ends at an input port of the node.
pub open spec fn edge_arrives<N, E: EdgeHaveSchema>(
    graph: Graph<N, E>,
    i: int,
    node: int,
    port: PortHandle,
) -> bool {
    &&& 0 <= i < graph.arcs().len()
    &&& graph.arcs()[i].1 == node
    &&& graph.edges()[i].spec_input_port() == port
}

/// The edge at `i` starts at an output port of the node.
pub open spec fn edge_departs<N, E: EdgeHaveSchema>(
    graph: Graph<N, E>,
    i: int,
    node: int,
    port: PortHandle,
) -> bool {
    &&& 0 <= i < graph.arcs().len()
    &&& graph.arcs()[i].0 == node
    &&& graph.edges()[i].spec_output_port() == port
}

/// The edge at `i` is the first one that ends at an input port of the node.
pub open spec fn edge_arrives_first<N, E: EdgeHaveSchema>(
    graph: Graph<N, E>,
    i: int,
    node: int,
    port: PortHandle,
) -> bool {
    &&& edge_arrives(graph, i, node, port)
    &&& forall|j: int| #[trigger] edge_arrives(graph, j, node, port) ==> i <= j
}

/// The edge at `i` is the first one that starts at an output port of the node.
pub open spec fn edge_departs_first<N, E: EdgeHaveSchema>(
    graph: Graph<N, E>,
    i: int,
    node: int,
    port: PortHandle,
) -> bool {
    &&& edge_departs(graph, i, node, port)
    &&& forall|j: int| #[trigger] edge_departs(graph, j, node, port) ==> i <= j
}

/// `schemas` holds, for each input port of the node at which an edge ends, the schema of the first
/// such edge, and nothing else.
pub open spec fn are_input_schemas<N, E: EdgeHaveSchema>(
    graph: Graph<N, E>,
    node: int,
    schemas: Map<PortHandle, Schema>,
) -> bool {
    &&& forall|port: PortHandle| #[trigger]
        schemas.contains_key(port) ==> exists|i: int| #[trigger]
            edge_arrives_first(graph, i, node, port) && schemas[port]@
                == graph.edges()[i].spec_schema()@
    &&& forall|i: int, port: PortHandle| #[trigger]
        edge_arrives(graph, i, node, port) ==> schemas.contains_key(port)
}

/// `schemas` holds, for each output port of the node at which an edge starts, the schema of the
/// first such edge, and nothing else.
pub open spec fn are_output_schemas<N, E: EdgeHaveSchema>(
    graph: Graph<N, E>,
    node: int,
    schemas: Map<PortHandle, Schema>,
) -> bool {
    &&& forall|port: PortHandle| #[trigger]
        schemas.contains_key(port) ==> exists|i: int| #[trigger]
            edge_departs_first(graph, i, node, port) && schemas[port]@
                == graph.edges()[i].spec_schema()@
    &&& forall|i: int, port: PortHandle| #[trigger]
        edge_departs(graph, i, node, port) ==> schemas.contains_key(port)
}

/// Of the first `k` ports, the one at `j` is the last one of this name.
spec fn is_last_port(ports: Seq<PortHandle>, k: int, j: int, port: PortHandle) -> bool {
    &&& 0 <= j < k
    &&& ports[j] == port
    &&& forall|m: int| j < m < k ==> ports[m] != port
}

/// A graph whose edges have schemas.
pub trait DagHaveSchemas {
    /// The weight of a node.
    type NodeType;

    /// The weight of an edge.
    type EdgeType: EdgeHaveSchema;

    /// The nodes and edges.
    spec fn schema_graph(&self) -> Graph<Self::NodeType, Self::EdgeType>;

    /// The nodes and edges.
    fn graph(&self) -> (graph: &Graph<Self::NodeType, Self::EdgeType>)
        ensures
            *graph == self.schema_graph(),
    ;

    /// The schemas of the records that come in at the ports of a node.
    fn get_node_input_schemas(&self, node_index: usize) -> (schemas: HashMap<PortHandle, Schema>)
        requires
            self.schema_graph().wf(),
        ensures
            are_input_schemas(self.schema_graph(), node_index as int, schemas@),
    {
        broadcast use group_hash_axioms;

        let graph = self.graph();
        let ghost g = *graph;
        let ghost n = node_index as int;
        let mut schemas: HashMap<PortHandle, Schema> = HashMap::new();
        let incoming = graph.edges_into(node_index);
        let ghost ports = Seq::new(
            incoming@.len(),
            |j: int| g.edges()[incoming@[j].0 as int].spec_input_port(),
        );
        let mut k: usize = 0;
        while k < incoming.len()
            invariant
                g == *graph,
                g.wf(),
                n == node_index,
                lists_arcs_into(g.arcs(), node_index, incoming@),
                ports.len() == incoming@.len(),
                forall|j: int|
                    0 <= j < ports.len() ==> #[trigger] ports[j] == g.edges()[incoming@[j].0
                        as int].spec_input_port(),
                k <= incoming.len(),
                forall|port: PortHandle| #[trigger]
                    schemas@.contains_key(port) ==> exists|j: int| #[trigger]
                        is_last_port(ports, k as int, j, port) && schemas@[port]@
                            == g.edges()[incoming@[j].0 as int].spec_schema()@,
                forall|j: int| 0 <= j < k ==> schemas@.contains_key(#[trigger] ports[j]),
            decreases incoming.len() - k,
        {
            let (index, _source) = incoming[k];
            assert(incoming@.contains((incoming@[k as int].0, incoming@[k as int].1)));
            let edge = graph.edge(index);
            let schema = edge.schema();
            let port: PortHandle = edge.input_port();
            let ghost before = schemas@;
            schemas.insert(port, schema.clone());
            assert(ports[k as int] == port);
            assert(is_last_port(ports, k + 1, k as int, port));
            assert forall|p: PortHandle| #[trigger]
                schemas@.contains_key(p) implies exists|j: int| #[trigger]
                is_last_port(ports, k + 1, j, p) && schemas@[p]@ == g.edges()[incoming@[j].0
                    as int].spec_schema()@ by {
                if p != port {
                    assert(before.contains_key(p));
                    let j = choose|j: int| #[trigger]
                        is_last_port(ports, k as int, j, p) && before[p]@
                            == g.edges()[incoming@[j].0 as int].spec_schema()@;
                    assert(is_last_port(ports, k + 1, j, p));
                }
            }
            k += 1;
        }
        assert forall|i: int, port: PortHandle| #[trigger]
            edge_arrives(g, i, n, port) implies exists|j: int|
            0 <= j < incoming@.len() && (#[trigger] incoming@[j]).0 == i && ports[j] == port by {
            let edge = (i as usize, g.arcs()[i].0);
            assert(g.arcs()[i] == (edge.1, node_index));
            assert(incoming@.contains((edge.0, edge.1)));
            let j = choose|j: int| 0 <= j < incoming@.len() && incoming@[j] == edge;
            assert(incoming@[j].0 == i);
        }
        assert forall|port: PortHandle| #[trigger]
            schemas@.contains_key(port) implies exists|i: int| #[trigger]
            edge_arrives_first(g, i, n, port) && schemas@[port]@
                == g.edges()[i].spec_schema()@ by {
            let j = choose|j: int| #[trigger]
                is_last_port(ports, k as int, j, port) && schemas@[port]@
                    == g.edges()[incoming@[j].0 as int].spec_schema()@;
            assert(incoming@.contains((incoming@[j].0, incoming@[j].1)));
            assert(edge_arrives_first(g, incoming@[j].0 as int, n, port));
        }
        schemas
    }

    /// The schemas of the records that go out at the ports of a node.
    fn get_node_output_schemas(&self, node_index: usize) -> (schemas: HashMap<PortHandle, Schema>)
        requires
            self.schema_graph().wf(),
        ensures
            are_output_schemas(self.schema_graph(), node_index as int, schemas@),
    {
        broadcast use group_hash_axioms;

        let graph = self.graph();
        let ghost g = *graph;
        let ghost n = node_index as int;
        let mut schemas: HashMap<PortHandle, Schema> = HashMap::new();
        let outgoing = graph.edges_from(node_index);
        let ghost ports = Seq::new(
            outgoing@.len(),
            |j: int| g.edges()[outgoing@[j] as int].spec_output_port(),
        );
        let mut k: usize = 0;
        while k < outgoing.len()
            invariant
                g == *graph,
                g.wf(),
                n == node_index,
                lists_arcs_from(g.arcs(), node_index, outgoing@),
                ports.len() == outgoing@.len(),
                forall|j: int|
                    0 <= j < ports.len() ==> #[trigger] ports[j] == g.edges()[outgoing@[j]
                        as int].spec_output_port(),
                k <= outgoing.len(),
                forall|port: PortHandle| #[trigger]
                    schemas@.contains_key(port) ==> exists|j: int| #[trigger]
                        is_last_port(ports, k as int, j, port) && schemas@[port]@
                            == g.edges()[outgoing@[j] as int].spec_schema()@,
                forall|j: int| 0 <= j < k ==> schemas@.contains_key(#[trigger] ports[j]),
            decreases outgoing.len() - k,
        {
            let index: usize = outgoing[k];
            assert(outgoing@.contains(outgoing@[k as int]));
            let edge = graph.edge(index);
            let schema = edge.schema();
            let port: PortHandle = edge.output_port();
            let ghost before = schemas@;
            schemas.insert(port, schema.clone());
            assert(ports[k as int] == port);
            assert(is_last_port(ports, k + 1, k as int, port));
            assert forall|p: PortHandle| #[trigger]
                schemas@.contains_key(p) implies exists|j: int| #[trigger]
                is_last_port(ports, k + 1, j, p) && schemas@[p]@ == g.edges()[outgoing@[j]
                    as int].spec_schema()@ by {
                if p != port {
                    assert(before.contains_key(p));
                    let j = choose|j: int| #[trigger]
                        is_last_port(ports, k as int, j, p) && before[p]@
                            == g.edges()[outgoing@[j] as int].spec_schema()@;
                    assert(is_last_port(ports, k + 1, j, p));
                }
            }
            k += 1;
        }
        assert forall|i: int, port: PortHandle| #[trigger]
            edge_departs(g, i, n, port) implies exists|j: int|
            0 <= j < outgoing@.len() && #[trigger] outgoing@[j] == i && ports[j] == port by {
            assert(outgoing@.contains(i as usize));
            let j = choose|j: int| 0 <= j < outgoing@.len() && outgoing@[j] == i as usize;
            assert(outgoing@[j] == i);
        }
        assert forall|port: PortHandle| #[trigger]
            schemas@.contains_key(port) implies exists|i: int| #[trigger]
            edge_departs_first(g, i, n, port) && schemas@[port]@
                == g.edges()[i].spec_schema()@ by {
            let j = choose|j: int| #[trigger]
                is_last_port(ports, k as int, j, port) && schemas@[port]@
                    == g.edges()[outgoing@[j] as int].spec_schema()@;
            assert(outgoing@.contains(outgoing@[j]));
            assert(edge_departs_first(g, outgoing@[j] as int, n, port));
        }
        schemas
    }
}

/// The node is a sink.
pub open spec fn is_sink<T>(graph: Graph<NodeType<T>, EdgeType>, node: int) -> bool {
    0 <= node < graph.nodes().len() && graph.nodes()[node].kind is Sink
}

/// The node has an incoming edge on the default port.
pub open spec fn has_default_input<T>(graph: Graph<NodeType<T>, EdgeType>, node: int) -> bool {
    exists|i: int| #[trigger] edge_arrives(graph, i, node, DEFAULT_PORT_HANDLE)
}

/// The ids of the sources that precede a node.
pub open spec fn source_ids<T>(
    graph: Graph<NodeType<T>, EdgeType>,
    node: usize,
) -> Set<Seq<char>> {
    Set::new(
        |id: Seq<char>|
            exists|m: usize| #[trigger]
                precedes(graph.arcs(), m, node) && graph.nodes()[m as int].kind is Source
                    && graph.nodes()[m as int].handle.id@ == id,
    )
}

/// `entry` is what is known of a sink: the schema of the first edge that ends at its default port,
/// and the ids of the sources that precede it.
pub open spec fn is_sink_entry<T>(
    graph: Graph<NodeType<T>, EdgeType>,
    node: int,
    entry: (Schema, StringHashSet),
) -> bool {
    &&& exists|i: int| #[trigger]
        edge_arrives_first(graph, i, node, DEFAULT_PORT_HANDLE) && entry.0@
            == graph.edges()[i].schema@
    &&& entry.1@ == source_ids(graph, node as usize)
}

/// `schemas` holds, by its id, what is known of each sink, and nothing else.
pub open spec fn are_sink_schemas<T>(
    graph: Graph<NodeType<T>, EdgeType>,
    schemas: Map<Seq<char>, (Schema, StringHashSet)>,
) -> bool {
    &&& forall|id: Seq<char>| #[trigger]
        schemas.contains_key(id) ==> exists|n: int| #[trigger]
            is_sink(graph, n) && graph.nodes()[n].handle.id@ == id
    &&& forall|n: int| #[trigger]
        is_sink(graph, n) ==> {
            let id = graph.nodes()[n].handle.id@;
            schemas.contains_key(id) && is_sink_entry(graph, n, schemas[id])
        }
}

/// A `Dag` with validated schemas on its edges.
#[verifier::reject_recursive_types(T)]
pub struct DagSchemas<T> {
    graph: Graph<NodeType<T>, EdgeType>,
}

impl<T> DagSchemas<T> {
    /// The nodes and edges.
    pub closed spec fn spec_graph(&self) -> Graph<NodeType<T>, EdgeType> {
        self.graph
    }

    /// Takes the nodes and edges out.
    pub fn into_graph(self) -> (graph: Graph<NodeType<T>, EdgeType>)
        ensures
            graph == self.spec_graph(),
    {
        self.graph
    }

    /// The nodes and edges.
    pub fn graph(&self) -> (graph: &Graph<NodeType<T>, EdgeType>)
        ensures
            *graph == self.spec_graph(),
    {
        &self.graph
    }

    /// Returns a map from the id of a sink to its schema, which includes:
    ///
    /// - The input schema on the default port.
    /// - The ids of the sources that are ancestors of this sink.
    pub fn get_sink_schemas(&self) -> (schemas: StringHashMap<(Schema, StringHashSet)>)
        requires
            self.spec_graph().wf(),
            forall|n: int| #[trigger]
                is_sink(self.spec_graph(), n) ==> has_default_input(self.spec_graph(), n),
            forall|m: int, n: int| #[trigger]
                is_sink(self.spec_graph(), m) && #[trigger] is_sink(self.spec_graph(), n) && m
                    != n ==> self.spec_graph().nodes()[m].handle.id@
                    != self.spec_graph().nodes()[n].handle.id@,
        ensures
            forall|id: Seq<char>| #[trigger]
                schemas@.contains_key(id) ==> exists|n: int| #[trigger]
                    is_sink(self.spec_graph(), n) && self.spec_graph().nodes()[n].handle.id@
                        == id,
            forall|n: int| #[trigger]
                is_sink(self.spec_graph(), n) ==> {
                    let id = self.spec_graph().nodes()[n].handle.id@;
                    schemas@.contains_key(id) && is_sink_entry(
                        self.spec_graph(),
                        n,
                        schemas@[id],
                    )
                },
            are_sink_schemas(self.spec_graph(), schemas@),
    {
        broadcast use group_hash_axioms;

        let ghost g = self.spec_graph();
        let mut schemas: StringHashMap<(Schema, StringHashSet)> = StringHashMap::new();
        let mut node_index: usize = 0;
        while node_index < self.graph.node_count()
            invariant
                g == self.spec_graph(),
                g.wf(),
                node_index <= g.nodes().len(),
                forall|n: int| #[trigger] is_sink(g, n) ==> has_default_input(g, n),
                forall|m: int, n: int| #[trigger]
                    is_sink(g, m) && #[trigger] is_sink(g, n) && m != n
                        ==> g.nodes()[m].handle.id@ != g.nodes()[n].handle.id@,
                forall|id: Seq<char>| #[trigger]
                    schemas@.contains_key(id) ==> exists|n: int| #[trigger]
                        is_sink(g, n) && g.nodes()[n].handle.id@ == id,
                forall|n: int| #[trigger]
                    is_sink(g, n) && n < node_index ==> {
                        let id = g.nodes()[n].handle.id@;
                        schemas@.contains_key(id) && is_sink_entry(g, n, schemas@[id])
                    },
            decreases g.nodes().len() - node_index,
        {
            let node = self.graph.node(node_index);
            if let NodeKind::Sink(_) = &node.kind {
                assert(is_sink(g, node_index as int));
                assert(has_default_input(g, node_index as int));
                let mut input_schemas = self.get_node_input_schemas(node_index);
                let ghost all_inputs = input_schemas@;
                assert(all_inputs.contains_key(DEFAULT_PORT_HANDLE));
                let schema = input_schemas.remove(&DEFAULT_PORT_HANDLE).unwrap();
                let mut sources = StringHashSet::new();
                self.get_ancestor_sources_rec(node_index, &mut sources);
                assert(sources@ =~= source_ids(g, node_index));
                schemas.insert(node.handle.id.clone(), (schema, sources));
            }
            node_index += 1;
        }
        schemas
    }

    /// Adds the ids of the sources that precede a node.
    fn get_ancestor_sources_rec(&self, node_index: usize, sources: &mut StringHashSet)
        requires
            self.spec_graph().wf(),
            node_index < self.spec_graph().nodes().len(),
        ensures
            final(sources)@ == old(sources)@.union(source_ids(self.spec_graph(), node_index)),
        decreases
            ancestors(
                self.spec_graph().arcs(),
                self.spec_graph().nodes().len(),
                node_index,
            ).len(),
    {
        let ghost g = self.spec_graph();
        let incoming = self.graph.edges_into(node_index);
        let mut k: usize = 0;
        while k < incoming.len()
            invariant
                g == self.spec_graph(),
                g.wf(),
                node_index < g.nodes().len(),
                lists_arcs_into(g.arcs(), node_index, incoming@),
                k <= incoming.len(),
                old(sources)@.subset_of(sources@),
                sources@.subset_of(old(sources)@.union(source_ids(g, node_index))),
                forall|j: int|
                    0 <= j < k ==> source_ids(g, (#[trigger] incoming@[j]).1).subset_of(sources@),
                forall|j: int|
                    0 <= j < k && g.nodes()[(#[trigger] incoming@[j]).1 as int].kind is Source
                        ==> sources@.contains(g.nodes()[incoming@[j].1 as int].handle.id@),
            decreases incoming.len() - k,
        {
            let (index, source) = incoming[k];
            proof {
                assert(incoming@.contains((index, source)));
                assert(g.arcs()[index as int] == (source, node_index));
                assert(g.arcs().contains((source, node_index)));
                lemma_fewer_ancestors(g.arcs(), g.nodes().len(), source, node_index);
                lemma_precedes_by_last_arc(g.arcs(), source, node_index);
                assert forall|id: Seq<char>| source_ids(g, source).contains(id) implies source_ids(
                    g,
                    node_index,
                ).contains(id) by {
                    let m = choose|m: usize| #[trigger]
                        precedes(g.arcs(), m, source) && g.nodes()[m as int].kind is Source
                            && g.nodes()[m as int].handle.id@ == id;
                    lemma_precedes_by_last_arc(g.arcs(), m, node_index);
                }
            }
            let node = self.graph.node(source);
            if let NodeKind::Source(_) = &node.kind {
                assert(precedes(g.arcs(), source, node_index));
                sources.insert(node.handle.id.clone());
            }
            self.get_ancestor_sources_rec(source, sources);
            k += 1;
        }
        assert forall|id: Seq<char>| source_ids(g, node_index).contains(id) implies sources@.contains(
            id,
        ) by {
            let m = choose|m: usize| #[trigger]
                precedes(g.arcs(), m, node_index) && g.nodes()[m as int].kind is Source
                    && g.nodes()[m as int].handle.id@ == id;
            lemma_precedes_by_last_arc(g.arcs(), m, node_index);
            let s = choose|s: usize| #[trigger]
                g.arcs().contains((s, node_index)) && (m == s || precedes(g.arcs(), m, s));
            let i = choose|i: int| 0 <= i < g.arcs().len() && g.arcs()[i] == (s, node_index);
            assert(incoming@.contains((i as usize, s)));
            let j = choose|j: int| 0 <= j < incoming@.len() && incoming@[j] == (i as usize, s);
            assert(incoming@[j].1 == s);
            if m != s {
                assert(source_ids(g, s).contains(id));
            }
        }
        assert(sources@ =~= old(sources)@.union(source_ids(g, node_index)));
    }
}

impl<T: Clone> DagSchemas<T> {
    /// Populates the schemas of a connected pipeline. The result has the exact same structure as
    /// the pipeline, with schema information on the edges.
    pub fn new(dag: Dag<T>) -> (result: Result<Self, ExecutionError>)
        requires
            dag.wf(),
            is_connected(dag.spec_graph()),
        ensures
            match result {
                Ok(schemas) => is_populated_graph(dag.spec_graph(), schemas.spec_graph()),
                Err(error) => {
                    &&& exists|population: Population<T>, node: int| #[trigger]
                        population_stops(dag.spec_graph(), population, node, error)
                    &&& match error {
                        ExecutionError::Factory(_) => true,
                        ExecutionError::DuplicateInput { node: handle, port } => exists|node: int|
                            {
                                &&& 0 <= node < dag.spec_graph().nodes().len()
                                &&& (#[trigger] dag.spec_graph().nodes()[node]).handle == handle
                                &&& dag.spec_graph().nodes()[node].kind.input_ports()
                                    .to_multiset().count(port) >= 2
                            },
                        _ => false,
                    }
                },
            },
    {
        let ghost g = dag.spec_graph();
        let graph = dag.into_graph();
        assert forall|i: int| 0 <= i < g.edges().len() implies g.nodes()[(#[trigger]
        g.arcs()[i]).0 as int].kind.has_output_port(g.edges()[i].from) by {
            assert(edge_fits_ports(g, i));
        }
        match populate_schemas(graph) {
            Ok(graph) => Ok(DagSchemas { graph }),
            Err(error) => {
                proof {
                    let (population, node) = choose|population: Population<T>, node: int| #[trigger]
                        population_stops(g, population, node, error);
                    if !(g.nodes()[node].kind is Source) {
                        lemma_connected_inputs(g, node);
                        let ports = g.nodes()[node].kind.input_ports();
                        match error {
                            ExecutionError::DuplicateInput { port, .. } => {
                                lemma_duplicate_input_is_fed_twice(g, node, port);
                            },
                            ExecutionError::MissingInput { port, .. } => {
                                assert(ports.contains(port));
                            },
                            _ => {},
                        }
                    }
                }
                Err(error)
            },
        }
    }
}

impl<T> DagHaveSchemas for DagSchemas<T> {
    type NodeType = NodeType<T>;

    type EdgeType = EdgeType;

    open spec fn schema_graph(&self) -> Graph<NodeType<T>, EdgeType> {
        self.spec_graph()
    }

    fn graph(&self) -> (graph: &Graph<NodeType<T>, EdgeType>) {
        &self.graph
    }
}

} // verus!
