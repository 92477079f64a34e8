use std::collections::HashMap;

use dozer::connectivity::validate_connectivity;
use dozer::dag::Dag;
use dozer::errors::ConnectivityError;
use dozer::node::{
    FactoryError, NodeHandle, OutputPortDef, OutputPortType, PortHandle, ProcessorFactory,
    SinkFactory, SourceFactory, DEFAULT_PORT_HANDLE,
};
use dozer::types::Schema;

type Inputs = HashMap<PortHandle, (Schema, ())>;

fn default_output_port() -> Vec<OutputPortDef> {
    vec![OutputPortDef::new(DEFAULT_PORT_HANDLE, OutputPortType::Stateless)]
}

struct ConnectivityTestSourceFactory;

impl SourceFactory<()> for ConnectivityTestSourceFactory {
    fn get_output_schema(&self, _port: &PortHandle) -> Result<(Schema, ()), FactoryError> {
        unreachable!()
    }

    fn get_output_ports(&self) -> Vec<OutputPortDef> {
        default_output_port()
    }
}

struct ConnectivityTestProcessorFactory;

impl ProcessorFactory<()> for ConnectivityTestProcessorFactory {
    fn get_output_schema(
        &self,
        _output_port: &PortHandle,
        _input_schemas: &Inputs,
    ) -> Result<(Schema, ()), FactoryError> {
        unreachable!()
    }

    fn get_input_ports(&self) -> Vec<PortHandle> {
        vec![DEFAULT_PORT_HANDLE]
    }

    fn get_output_ports(&self) -> Vec<OutputPortDef> {
        default_output_port()
    }
}

struct NoInputPortProcessorFactory;

impl ProcessorFactory<()> for NoInputPortProcessorFactory {
    fn get_output_schema(
        &self,
        _output_port: &PortHandle,
        _input_schemas: &Inputs,
    ) -> Result<(Schema, ()), FactoryError> {
        unreachable!()
    }

    fn get_input_ports(&self) -> Vec<PortHandle> {
        vec![]
    }

    fn get_output_ports(&self) -> Vec<OutputPortDef> {
        default_output_port()
    }
}

struct SinkWithPorts(Vec<PortHandle>);

impl SinkFactory<()> for SinkWithPorts {
    fn get_input_ports(&self) -> Vec<PortHandle> {
        self.0.clone()
    }

    fn prepare(&self, _input_schemas: Inputs) -> Result<(), FactoryError> {
        unreachable!()
    }
}

struct ConnectivityTestSinkFactory;

impl SinkFactory<()> for ConnectivityTestSinkFactory {
    fn get_input_ports(&self) -> Vec<PortHandle> {
        vec![DEFAULT_PORT_HANDLE]
    }

    fn prepare(&self, _input_schemas: Inputs) -> Result<(), FactoryError> {
        unreachable!()
    }
}

struct NoInputPortSinkFactory;

impl SinkFactory<()> for NoInputPortSinkFactory {
    fn get_input_ports(&self) -> Vec<PortHandle> {
        vec![]
    }

    fn prepare(&self, _input_schemas: Inputs) -> Result<(), FactoryError> {
        unreachable!()
    }
}

fn handle(id: &str) -> NodeHandle {
    NodeHandle::new(None, id.to_string())
}

#[test]
#[should_panic]
fn source_with_no_outgoing_edge_should_panic() {
    let mut dag = Dag::new();
    dag.add_source(
        NodeHandle::new(None, "source".to_string()),
        Box::new(ConnectivityTestSourceFactory),
    );
    validate_connectivity(&dag).unwrap();
}

#[test]
#[should_panic]
fn processor_with_no_outgoing_edge_should_panic() {
    let mut dag = Dag::new();
    let source = dag.add_source(
        NodeHandle::new(None, "source".to_string()),
        Box::new(ConnectivityTestSourceFactory),
    );
    let processor = dag.add_processor(
        NodeHandle::new(None, "processor".to_string()),
        Box::new(ConnectivityTestProcessorFactory),
    );
    dag.connect_with_index(source, DEFAULT_PORT_HANDLE, processor, DEFAULT_PORT_HANDLE)
        .unwrap();
    validate_connectivity(&dag).unwrap();
}

#[test]
#[should_panic]
fn sink_with_no_input_port_should_panic() {
    let mut dag = Dag::new();
    dag.add_sink(
        NodeHandle::new(None, "sink".to_string()),
        Box::new(NoInputPortSinkFactory),
    );
    validate_connectivity(&dag).unwrap();
}

#[test]
#[should_panic]
fn processor_with_no_input_port_should_panic() {
    let mut dag = Dag::new();
    let processor = dag.add_processor(
        NodeHandle::new(None, "processor".to_string()),
        Box::new(NoInputPortProcessorFactory),
    );
    let sink = dag.add_sink(
        NodeHandle::new(None, "sink".to_string()),
        Box::new(ConnectivityTestSinkFactory),
    );
    dag.connect_with_index(processor, DEFAULT_PORT_HANDLE, sink, DEFAULT_PORT_HANDLE)
        .unwrap();
    validate_connectivity(&dag).unwrap();
}

#[test]
#[should_panic]
fn sink_with_unconnected_input_port_should_panic() {
    let mut dag = Dag::new();
    dag.add_sink(
        NodeHandle::new(None, "sink".to_string()),
        Box::new(ConnectivityTestSinkFactory),
    );
    validate_connectivity(&dag).unwrap();
}

#[test]
#[should_panic]
fn sink_with_over_connected_input_port_should_panic() {
    let mut dag = Dag::new();
    let source1 = dag.add_source(
        NodeHandle::new(None, "source1".to_string()),
        Box::new(ConnectivityTestSourceFactory),
    );
    let source2 = dag.add_source(
        NodeHandle::new(None, "source2".to_string()),
        Box::new(ConnectivityTestSourceFactory),
    );
    let sink = dag.add_sink(
        NodeHandle::new(None, "sink".to_string()),
        Box::new(ConnectivityTestSinkFactory),
    );
    dag.connect_with_index(source1, DEFAULT_PORT_HANDLE, sink, DEFAULT_PORT_HANDLE)
        .unwrap();
    dag.connect_with_index(source2, DEFAULT_PORT_HANDLE, sink, DEFAULT_PORT_HANDLE)
        .unwrap();
    validate_connectivity(&dag).unwrap();
}

#[test]
#[should_panic]
fn processor_with_unconnected_input_port_should_panic() {
    let mut dag = Dag::new();
    let processor = dag.add_processor(
        NodeHandle::new(None, "processor".to_string()),
        Box::new(ConnectivityTestProcessorFactory),
    );
    let sink = dag.add_sink(
        NodeHandle::new(None, "sink".to_string()),
        Box::new(ConnectivityTestSinkFactory),
    );
    dag.connect_with_index(processor, DEFAULT_PORT_HANDLE, sink, DEFAULT_PORT_HANDLE)
        .unwrap();
    validate_connectivity(&dag).unwrap();
}

#[test]
#[should_panic]
fn processor_with_over_connected_input_port_should_panic() {
    let mut dag = Dag::new();
    let source1 = dag.add_source(
        NodeHandle::new(None, "source1".to_string()),
        Box::new(ConnectivityTestSourceFactory),
    );
    let source2 = dag.add_source(
        NodeHandle::new(None, "source2".to_string()),
        Box::new(ConnectivityTestSourceFactory),
    );
    let processor = dag.add_processor(
        NodeHandle::new(None, "processor".to_string()),
        Box::new(ConnectivityTestProcessorFactory),
    );
    let sink = dag.add_sink(
        NodeHandle::new(None, "sink".to_string()),
        Box::new(ConnectivityTestSinkFactory),
    );
    dag.connect_with_index(source1, DEFAULT_PORT_HANDLE, processor, DEFAULT_PORT_HANDLE)
        .unwrap();
    dag.connect_with_index(source2, DEFAULT_PORT_HANDLE, processor, DEFAULT_PORT_HANDLE)
        .unwrap();
    dag.connect_with_index(processor, DEFAULT_PORT_HANDLE, sink, DEFAULT_PORT_HANDLE)
        .unwrap();
    validate_connectivity(&dag).unwrap();
}

#[test]
fn validate_source_sink_dag() {
    let mut dag = Dag::new();
    let source = dag.add_source(
        NodeHandle::new(None, "source".to_string()),
        Box::new(ConnectivityTestSourceFactory),
    );
    let sink = dag.add_sink(
        NodeHandle::new(None, "sink".to_string()),
        Box::new(ConnectivityTestSinkFactory),
    );
    dag.connect_with_index(source, DEFAULT_PORT_HANDLE, sink, DEFAULT_PORT_HANDLE)
        .unwrap();
    validate_connectivity(&dag).unwrap();
}

#[test]
fn validate_link_shaped_dag() {
    let mut dag = Dag::new();
    let source = dag.add_source(
        NodeHandle::new(None, "source".to_string()),
        Box::new(ConnectivityTestSourceFactory),
    );
    let processor = dag.add_processor(
        NodeHandle::new(None, "processor1".to_string()),
        Box::new(ConnectivityTestProcessorFactory),
    );
    let sink = dag.add_sink(
        NodeHandle::new(None, "sink".to_string()),
        Box::new(ConnectivityTestSinkFactory),
    );
    dag.connect_with_index(source, DEFAULT_PORT_HANDLE, processor, DEFAULT_PORT_HANDLE)
        .unwrap();
    dag.connect_with_index(processor, DEFAULT_PORT_HANDLE, sink, DEFAULT_PORT_HANDLE)
        .unwrap();
    validate_connectivity(&dag).unwrap();
}

#[test]
fn empty_dag_is_connected() {
    let dag: Dag<()> = Dag::new();
    assert_eq!(validate_connectivity(&dag), Ok(()));
}

#[test]
fn missing_outgoing_edge_is_reported_before_input_ports() {
    let mut dag = Dag::new();
    dag.add_sink(handle("sink"), Box::new(NoInputPortSinkFactory));
    dag.add_source(handle("source"), Box::new(ConnectivityTestSourceFactory));
    assert_eq!(
        validate_connectivity(&dag),
        Err(ConnectivityError::NoOutgoingEdge { node: handle("source") })
    );
}

#[test]
fn missing_input_port_is_reported() {
    let mut dag = Dag::new();
    dag.add_sink(handle("sink"), Box::new(NoInputPortSinkFactory));
    assert_eq!(
        validate_connectivity(&dag),
        Err(ConnectivityError::NoInputPort { node: handle("sink") })
    );
}

#[test]
fn mismatched_ports_are_reported_in_order() {
    let mut dag = Dag::new();
    let source = dag.add_source(handle("source"), Box::new(ConnectivityTestSourceFactory));
    let sink = dag.add_sink(handle("sink"), Box::new(SinkWithPorts(vec![7, 3, 5])));
    for port in [5, 3, 5] {
        dag.connect_with_index(source, DEFAULT_PORT_HANDLE, sink, port).unwrap();
    }
    assert_eq!(
        validate_connectivity(&dag),
        Err(ConnectivityError::InputPortsMismatch {
            node: handle("sink"),
            input_ports: vec![3, 5, 7],
            connected_input_ports: vec![3, 5, 5],
        })
    );
}

#[test]
fn ports_may_be_connected_in_any_order() {
    let mut dag = Dag::new();
    let source = dag.add_source(handle("source"), Box::new(ConnectivityTestSourceFactory));
    let sink = dag.add_sink(handle("sink"), Box::new(SinkWithPorts(vec![7, 3, 5])));
    for port in [5, 7, 3] {
        dag.connect_with_index(source, DEFAULT_PORT_HANDLE, sink, port).unwrap();
    }
    assert_eq!(validate_connectivity(&dag), Ok(()));
}
