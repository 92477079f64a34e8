use std::cell::Cell;
use std::collections::HashMap;

use dozer::connectivity::validate_connectivity;
use dozer::dag::{Dag, EdgeType as DagEdgeType};
use dozer::dag_schemas::{
    DagHaveSchemas, DagSchemas, EdgeHavePorts, EdgeHaveSchema, EdgeType, NodeSchemas,
};
use dozer::errors::ExecutionError;
use dozer::graph::Graph;
use dozer::node::{
    FactoryError, NodeHandle, NodeKind, NodeType, OutputPortDef, OutputPortType, PortHandle,
    ProcessorFactory, SinkFactory, SourceFactory, DEFAULT_PORT_HANDLE,
};
use dozer::populate::{
    create_edge, find_output_port_def, populate_schemas, validate_input_schemas,
};
use dozer::types::{FieldDefinition, FieldType, Schema, SourceDefinition};

type Inputs = HashMap<PortHandle, (Schema, u32)>;

fn schema(names: &[&str]) -> Schema {
    Schema {
        identifier: None,
        fields: names
            .iter()
            .map(|name| FieldDefinition {
                name: name.to_string(),
                typ: FieldType::Int,
                nullable: false,
                source: SourceDefinition::Dynamic,
            })
            .collect(),
        primary_index: vec![0],
    }
}

fn names(schema: &Schema) -> Vec<&str> {
    schema.fields.iter().map(|field| field.name.as_str()).collect()
}

fn handle(id: &str) -> NodeHandle {
    NodeHandle::new(None, id.to_string())
}

fn failure(message: &str) -> FactoryError {
    FactoryError { message: message.to_string() }
}

/// Gives a field named after itself and the port, and the context 1.
struct Source {
    name: &'static str,
    ports: Vec<OutputPortDef>,
    fails_on: Vec<PortHandle>,
}

impl SourceFactory<u32> for Source {
    fn get_output_schema(&self, port: &PortHandle) -> Result<(Schema, u32), FactoryError> {
        if self.fails_on.contains(port) {
            return Err(failure(&format!("{} {}", self.name, port)));
        }
        Ok((schema(&[&format!("{}{}", self.name, port)]), 1))
    }

    fn get_output_ports(&self) -> Vec<OutputPortDef> {
        self.ports.clone()
    }
}

fn source(name: &'static str) -> Box<Source> {
    Box::new(Source {
        name,
        ports: vec![OutputPortDef::new(DEFAULT_PORT_HANDLE, OutputPortType::Stateless)],
        fails_on: vec![],
    })
}

/// Gives all fields of its inputs, port by port, and the sum of their contexts plus 1.
struct Union {
    inputs: Vec<PortHandle>,
    fails: bool,
}

impl ProcessorFactory<u32> for Union {
    fn get_output_schema(
        &self,
        _output_port: &PortHandle,
        input_schemas: &Inputs,
    ) -> Result<(Schema, u32), FactoryError> {
        if self.fails {
            return Err(failure("union"));
        }
        let mut fields = vec![];
        let mut context = 1;
        for port in &self.inputs {
            let (schema, input_context) = &input_schemas[port];
            fields.extend(schema.fields.clone());
            context += input_context;
        }
        Ok((Schema { identifier: None, fields, primary_index: vec![] }, context))
    }

    fn get_input_ports(&self) -> Vec<PortHandle> {
        self.inputs.clone()
    }

    fn get_output_ports(&self) -> Vec<OutputPortDef> {
        vec![
            OutputPortDef::new(7, OutputPortType::StatefulWithPrimaryKeyLookup),
            OutputPortDef::new(7, OutputPortType::Stateless),
        ]
    }
}

fn union(inputs: Vec<PortHandle>) -> Box<Union> {
    Box::new(Union { inputs, fails: false })
}

/// Accepts the given contexts only.
struct Sink {
    inputs: Vec<PortHandle>,
    accepts: Vec<u32>,
}

impl SinkFactory<u32> for Sink {
    fn get_input_ports(&self) -> Vec<PortHandle> {
        self.inputs.clone()
    }

    fn prepare(&self, input_schemas: Inputs) -> Result<(), FactoryError> {
        for (_, context) in input_schemas.values() {
            if !self.accepts.contains(context) {
                return Err(failure(&format!("context {}", context)));
            }
        }
        Ok(())
    }
}

fn sink(accepts: Vec<u32>) -> Box<Sink> {
    Box::new(Sink { inputs: vec![DEFAULT_PORT_HANDLE], accepts })
}

/// Two sources joined by a union, which feeds one sink; the first source feeds another sink too.
fn diamond() -> Dag<u32> {
    let mut dag = Dag::new();
    let joined = dag.add_sink(handle("joined"), sink(vec![3]));
    let union = dag.add_processor(handle("union"), union(vec![1, 2]));
    let a = dag.add_source(handle("a"), source("a"));
    let b = dag.add_source(handle("b"), source("b"));
    let single = dag.add_sink(handle("single"), sink(vec![1]));
    assert_eq!(dag.connect_with_index(union, 7, joined, DEFAULT_PORT_HANDLE), Ok(0));
    assert_eq!(dag.connect_with_index(b, DEFAULT_PORT_HANDLE, union, 2), Ok(1));
    assert_eq!(dag.connect_with_index(a, DEFAULT_PORT_HANDLE, union, 1), Ok(2));
    assert_eq!(
        dag.connect_with_index(a, DEFAULT_PORT_HANDLE, single, DEFAULT_PORT_HANDLE),
        Ok(3)
    );
    dag
}

fn error_of<A>(result: Result<A, ExecutionError>) -> ExecutionError {
    match result {
        Ok(_) => panic!("no error"),
        Err(error) => error,
    }
}

#[test]
fn schemas_are_passed_downstream() {
    let dag = diamond();
    assert_eq!(validate_connectivity(&dag), Ok(()));
    let schemas = DagSchemas::new(dag).ok().unwrap();
    let graph = schemas.graph();
    assert_eq!(graph.node_count(), 5);
    assert_eq!(graph.edge_count(), 4);
    assert_eq!(graph.node(1).handle, handle("union"));
    let edge = graph.edge(0);
    assert_eq!(edge.output_port(), 7);
    assert_eq!(edge.output_port_type, OutputPortType::StatefulWithPrimaryKeyLookup);
    assert_eq!(edge.input_port(), DEFAULT_PORT_HANDLE);
    assert_eq!(names(edge.schema()), vec!["a65535", "b65535"]);
    assert_eq!(*graph.edge(1), EdgeType::new(
        DEFAULT_PORT_HANDLE,
        OutputPortType::Stateless,
        2,
        schema(&["b65535"]),
    ));
    assert_eq!(graph.edges_into(1), vec![(2, 2), (1, 3)]);
    assert_eq!(graph.edges_from(2), vec![3, 2]);
    assert_eq!(schemas.into_graph().node_count(), 5);
}

#[test]
fn input_and_output_schemas_of_nodes() {
    let schemas = DagSchemas::new(diamond()).ok().unwrap();
    let inputs = schemas.get_node_input_schemas(1);
    assert_eq!(inputs.len(), 2);
    assert_eq!(inputs[&1], schema(&["a65535"]));
    assert_eq!(inputs[&2], schema(&["b65535"]));
    let outputs = schemas.get_node_output_schemas(1);
    assert_eq!(outputs.len(), 1);
    assert_eq!(names(&outputs[&7]), vec!["a65535", "b65535"]);
    assert!(schemas.get_node_input_schemas(2).is_empty());
    assert!(schemas.get_node_output_schemas(0).is_empty());
    assert!(schemas.get_node_input_schemas(17).is_empty());
    assert!(schemas.get_node_output_schemas(17).is_empty());
}

#[test]
fn sink_schemas_hold_the_default_input_and_the_sources() {
    let schemas = DagSchemas::new(diamond()).ok().unwrap().get_sink_schemas();
    assert_eq!(schemas.len(), 2);
    let (joined, sources) = schemas.get("joined").unwrap();
    assert_eq!(names(joined), vec!["a65535", "b65535"]);
    assert_eq!(sources.len(), 2);
    assert!(sources.contains("a") && sources.contains("b"));
    let (single, sources) = schemas.get("single").unwrap();
    assert_eq!(names(single), vec!["a65535"]);
    assert_eq!(sources.len(), 1);
    assert!(sources.contains("a"));
    assert!(schemas.get("union").is_none());
}

#[test]
fn sources_are_found_through_several_processors() {
    let mut dag = Dag::new();
    let source = dag.add_source(handle("source"), source("s"));
    let first = dag.add_processor(handle("first"), union(vec![3]));
    let second = dag.add_processor(handle("second"), union(vec![4, 5]));
    let end = dag.add_sink(handle("end"), sink(vec![5]));
    dag.connect_with_index(source, DEFAULT_PORT_HANDLE, first, 3).unwrap();
    dag.connect_with_index(first, 7, second, 4).unwrap();
    dag.connect_with_index(first, 7, second, 5).unwrap();
    dag.connect_with_index(second, 7, end, DEFAULT_PORT_HANDLE).unwrap();
    let schemas = DagSchemas::new(dag).ok().unwrap().get_sink_schemas();
    let (schema, sources) = schemas.get("end").unwrap();
    assert_eq!(names(schema), vec!["s65535", "s65535"]);
    assert_eq!(sources.len(), 1);
    assert!(sources.contains("source"));
}

#[test]
fn empty_pipeline_has_no_sink_schemas() {
    let schemas = DagSchemas::new(Dag::<u32>::new()).ok().unwrap();
    assert_eq!(schemas.graph().node_count(), 0);
    assert_eq!(schemas.get_sink_schemas().len(), 0);
}

#[test]
fn populating_twice_gives_the_same_edges() {
    let first = DagSchemas::new(diamond()).ok().unwrap();
    let second = DagSchemas::new(diamond()).ok().unwrap();
    for i in 0..4 {
        assert_eq!(first.graph().edge(i), second.graph().edge(i));
        assert_eq!(first.graph().edge(i).clone(), *second.graph().edge(i));
    }
}

#[test]
fn failing_source_stops_population() {
    let mut dag = Dag::new();
    let ports = vec![
        OutputPortDef::new(1, OutputPortType::Stateless),
        OutputPortDef::new(2, OutputPortType::Stateless),
    ];
    let source = dag.add_source(
        handle("source"),
        Box::new(Source { name: "s", ports, fails_on: vec![1, 2] }),
    );
    let first = dag.add_sink(handle("first"), sink(vec![1]));
    let second = dag.add_sink(handle("second"), sink(vec![1]));
    dag.connect_with_index(source, 1, first, DEFAULT_PORT_HANDLE).unwrap();
    dag.connect_with_index(source, 2, second, DEFAULT_PORT_HANDLE).unwrap();
    assert_eq!(validate_connectivity(&dag), Ok(()));
    assert_eq!(error_of(DagSchemas::new(dag)), ExecutionError::Factory(failure("s 2")));
}

#[test]
fn failing_processor_stops_population() {
    let mut dag = Dag::new();
    let source = dag.add_source(handle("source"), source("s"));
    let union = dag.add_processor(handle("union"), Box::new(Union { inputs: vec![3], fails: true }));
    let end = dag.add_sink(handle("end"), sink(vec![1]));
    dag.connect_with_index(source, DEFAULT_PORT_HANDLE, union, 3).unwrap();
    dag.connect_with_index(union, 7, end, DEFAULT_PORT_HANDLE).unwrap();
    assert_eq!(error_of(DagSchemas::new(dag)), ExecutionError::Factory(failure("union")));
}

#[test]
fn failing_sink_stops_population() {
    let mut dag = Dag::new();
    let source = dag.add_source(handle("source"), source("s"));
    let end = dag.add_sink(handle("end"), sink(vec![]));
    dag.connect_with_index(source, DEFAULT_PORT_HANDLE, end, DEFAULT_PORT_HANDLE).unwrap();
    assert_eq!(error_of(DagSchemas::new(dag)), ExecutionError::Factory(failure("context 1")));
}

#[test]
fn port_listed_twice_is_a_duplicate_input() {
    let mut dag = Dag::new();
    let source = dag.add_source(handle("source"), source("s"));
    let end = dag.add_sink(handle("end"), Box::new(Sink { inputs: vec![4, 4], accepts: vec![1] }));
    dag.connect_with_index(source, DEFAULT_PORT_HANDLE, end, 4).unwrap();
    dag.connect_with_index(source, DEFAULT_PORT_HANDLE, end, 4).unwrap();
    assert_eq!(validate_connectivity(&dag), Ok(()));
    assert_eq!(
        error_of(DagSchemas::new(dag)),
        ExecutionError::DuplicateInput { node: handle("end"), port: 4 }
    );
}

#[test]
fn latest_edges_decide_which_duplicate_is_reported() {
    let mut dag = Dag::new();
    let source = dag.add_source(handle("source"), source("s"));
    let end = dag.add_sink(handle("end"), Box::new(Sink { inputs: vec![4, 5], accepts: vec![1] }));
    for port in [4, 5, 4, 5] {
        dag.connect_with_index(source, DEFAULT_PORT_HANDLE, end, port).unwrap();
    }
    assert_eq!(
        error_of(populate_schemas(dag.into_graph())),
        ExecutionError::DuplicateInput { node: handle("end"), port: 5 }
    );
}

#[test]
fn first_unfed_port_is_a_missing_input() {
    let mut dag = Dag::new();
    let source = dag.add_source(handle("source"), source("s"));
    let end =
        dag.add_sink(handle("end"), Box::new(Sink { inputs: vec![4, 6, 5], accepts: vec![1] }));
    dag.connect_with_index(source, DEFAULT_PORT_HANDLE, end, 4).unwrap();
    assert_eq!(
        error_of(populate_schemas(dag.into_graph())),
        ExecutionError::MissingInput { node: handle("end"), port: 6 }
    );
}

#[test]
fn ports_that_a_node_lacks_cannot_be_connected() {
    let mut dag = Dag::new();
    let source = dag.add_source(handle("source"), source("s"));
    let end = dag.add_sink(handle("end"), sink(vec![1]));
    assert_eq!(
        dag.connect_with_index(source, 5, end, 6),
        Err(ExecutionError::InvalidPortHandle(5))
    );
    assert_eq!(
        dag.connect_with_index(source, DEFAULT_PORT_HANDLE, end, 6),
        Err(ExecutionError::InvalidPortHandle(6))
    );
    assert_eq!(
        dag.connect_with_index(end, 8, source, 9),
        Err(ExecutionError::InvalidPortHandle(8))
    );
    assert_eq!(dag.graph().edge_count(), 0);
}

#[test]
fn edges_that_close_a_cycle_are_refused() {
    let mut dag = Dag::new();
    let first = dag.add_processor(handle("first"), union(vec![1]));
    let second = dag.add_processor(handle("second"), union(vec![1]));
    let third = dag.add_processor(handle("third"), union(vec![1]));
    assert_eq!(dag.connect_with_index(first, 7, second, 1), Ok(0));
    assert_eq!(dag.connect_with_index(second, 7, third, 1), Ok(1));
    assert_eq!(dag.connect_with_index(third, 7, first, 1), Err(ExecutionError::WouldCycle));
    assert_eq!(dag.connect_with_index(first, 7, first, 1), Err(ExecutionError::WouldCycle));
    assert_eq!(dag.graph().edge_count(), 2);
    assert_eq!(dag.graph().edges_into(second), vec![(0, first)]);
}

#[test]
fn graph_lists_edges_from_the_latest_on() {
    let mut graph: Graph<&str, u8> = Graph::new();
    let a = graph.add_node("a");
    let b = graph.add_node("b");
    let c = graph.add_node("c");
    assert_eq!((a, b, c), (0, 1, 2));
    assert_eq!(graph.add_edge(c, a, 10).ok(), Some(0));
    assert_eq!(graph.add_edge(c, b, 11).ok(), Some(1));
    assert_eq!(graph.add_edge(a, b, 12).ok(), Some(2));
    assert_eq!(graph.add_edge(c, b, 13).ok(), Some(3));
    assert_eq!(graph.add_edge(b, c, 14).err().unwrap().0, 14);
    assert_eq!(graph.edges_from(c), vec![3, 1, 0]);
    assert_eq!(graph.edges_into(b), vec![(3, c), (2, a), (1, c)]);
    assert!(graph.edges_from(b).is_empty());
    assert_eq!(graph.topological_order(), vec![c, a, b]);
    let graph = graph.with_edges(vec!["w", "x", "y", "z"]);
    assert_eq!(*graph.edge(2), "y");
    assert_eq!(*graph.node(2), "c");
    assert_eq!(graph.edges_into(a), vec![(0, c)]);
}

#[test]
fn first_output_port_of_a_name_is_found() {
    let ports = vec![
        OutputPortDef::new(1, OutputPortType::Stateless),
        OutputPortDef::new(2, OutputPortType::StatefulWithPrimaryKeyLookup),
        OutputPortDef::new(2, OutputPortType::Stateless),
    ];
    assert_eq!(*find_output_port_def(&ports, 2), ports[1]);
    assert_eq!(*find_output_port_def(&ports, 1), ports[0]);
}

#[test]
fn created_edge_joins_the_ports() {
    let mut edges: Vec<Option<(EdgeType, u32)>> = vec![None, None];
    let port = OutputPortDef::new(3, OutputPortType::StatefulWithPrimaryKeyLookup);
    create_edge(&mut edges, 1, &DagEdgeType { from: 3, to: 9 }, &port, schema(&["x"]), 42);
    assert_eq!(edges[0], None);
    let expected =
        EdgeType::new(3, OutputPortType::StatefulWithPrimaryKeyLookup, 9, schema(&["x"]));
    assert_eq!(edges[1], Some((expected, 42)));
}

#[test]
fn inputs_are_gathered_with_their_contexts() {
    let mut graph: Graph<NodeType<u32>, DagEdgeType> = Graph::new();
    let a = graph.add_node(NodeType { handle: handle("a"), kind: NodeKind::Source(source("a")) });
    let end = graph
        .add_node(NodeType { handle: handle("end"), kind: NodeKind::Sink(sink(vec![])) });
    graph.add_edge(a, end, DagEdgeType { from: 1, to: 5 }).unwrap();
    graph.add_edge(a, end, DagEdgeType { from: 2, to: 6 }).unwrap();
    let edges = vec![
        Some((EdgeType::new(1, OutputPortType::Stateless, 5, schema(&["x"])), 42)),
        Some((EdgeType::new(2, OutputPortType::Stateless, 6, schema(&["y"])), 43)),
    ];
    let inputs = validate_input_schemas(&graph, &edges, end, vec![5]).unwrap();
    assert_eq!(inputs.len(), 2);
    assert_eq!(inputs[&5], (schema(&["x"]), 42));
    assert_eq!(inputs[&6], (schema(&["y"]), 43));
    assert_eq!(
        validate_input_schemas(&graph, &edges, end, vec![5, 8]).err(),
        Some(ExecutionError::MissingInput { node: handle("end"), port: 8 })
    );
}

/// Gives a field that is named after how often it has been asked before.
struct Counting(Cell<u32>);

impl SourceFactory<u32> for Counting {
    fn get_output_schema(&self, _port: &PortHandle) -> Result<(Schema, u32), FactoryError> {
        let count = self.0.get();
        self.0.set(count + 1);
        Ok((schema(&[&format!("call{}", count)]), 1))
    }

    fn get_output_ports(&self) -> Vec<OutputPortDef> {
        vec![OutputPortDef::new(1, OutputPortType::Stateless)]
    }
}

#[test]
fn earliest_edge_names_the_schema_of_a_shared_port() {
    let mut dag = Dag::new();
    let a = dag.add_source(handle("a"), Box::new(Counting(Cell::new(0))));
    let left = dag.add_sink(handle("left"), sink(vec![1]));
    let right = dag.add_sink(handle("right"), sink(vec![1]));
    dag.connect_with_index(a, 1, left, DEFAULT_PORT_HANDLE).unwrap();
    dag.connect_with_index(a, 1, right, DEFAULT_PORT_HANDLE).unwrap();
    let schemas = DagSchemas::new(dag).ok().unwrap();
    assert_eq!(names(schemas.graph().edge(1).schema()), vec!["call0"]);
    let outputs = schemas.get_node_output_schemas(a);
    assert_eq!(outputs.len(), 1);
    assert_eq!(names(&outputs[&1]), vec!["call1"]);
}

#[test]
fn node_schemas_hold_what_they_are_given() {
    let empty: NodeSchemas<u32> = NodeSchemas::new();
    assert!(empty.input_schemas.is_empty() && empty.output_schemas.is_empty());
    let default: NodeSchemas<u32> = Default::default();
    assert!(default.input_schemas.is_empty() && default.output_schemas.is_empty());
    let inputs: Inputs = [(1, (schema(&["x"]), 5))].into_iter().collect();
    let outputs: Inputs = [(2, (schema(&["y"]), 6))].into_iter().collect();
    let schemas = NodeSchemas::from(inputs, outputs);
    assert_eq!(schemas.input_schemas[&1], (schema(&["x"]), 5));
    assert_eq!(schemas.output_schemas[&2], (schema(&["y"]), 6));
}
