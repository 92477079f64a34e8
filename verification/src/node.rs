//! The nodes of a pipeline: their ports and the factories behind them.

use std::collections::HashMap;
use vstd::prelude::*;

use crate::types::Schema;

verus! {

/// Names a port of a node.
pub type PortHandle = u16;

/// The port of a node that has only one.
pub const DEFAULT_PORT_HANDLE: PortHandle = 0xffff;

/// How the records that leave an output port are kept.
#[derive(Clone, Copy, Debug, PartialEq, Eq, Structural)]
pub enum OutputPortType {
    Stateless,
    StatefulWithPrimaryKeyLookup,
}

/// An output port.
#[derive(Clone, Copy, Debug, PartialEq, Eq, Structural)]
pub struct OutputPortDef {
    pub handle: PortHandle,
    pub typ: OutputPortType,
}

impl OutputPortDef {
    /// An output port of the given name and type.
    pub fn new(handle: PortHandle, typ: OutputPortType) -> (port: Self)
        ensures
            port == (OutputPortDef { handle, typ }),
    {
        OutputPortDef { handle, typ }
    }
}

/// Names a node: its id, and the namespace of the id if there is one.
#[derive(Debug, PartialEq, Eq)]
pub struct NodeHandle {
    pub ns: Option<u16>,
    pub id: String,
}

impl NodeHandle {
    /// The handle of the node `id` in the namespace `ns`.
    pub fn new(ns: Option<u16>, id: String) -> (handle: Self)
        ensures
            handle == (NodeHandle { ns, id }),
    {
        NodeHandle { ns, id }
    }
}

impl Clone for NodeHandle {
    fn clone(&self) -> (copy: Self)
        ensures
            copy == *self,
    {
        NodeHandle { ns: self.ns, id: self.id.clone() }
    }
}

/// Why a factory could not do what it was asked for.
#[derive(Debug, PartialEq, Eq)]
pub struct FactoryError {
    pub message: String,
}

/// Makes sources. `T` is what the factories of a pipeline tell each other beside the schemas.
pub trait SourceFactory<T> {
    /// The output ports, which stay the same for the life of the factory.
    open spec fn output_ports(&self) -> Seq<OutputPortDef> {
        arbitrary()
    }

    /// What `get_output_schema` may return. By default it may return anything.
    open spec fn may_output(
        &self,
        port: PortHandle,
        result: Result<(Schema, T), FactoryError>,
    ) -> bool {
        true
    }

    /// The schema of the records that leave a port.
    fn get_output_schema(&self, port: &PortHandle) -> (result: Result<(Schema, T), FactoryError>)
        ensures
            self.may_output(*port, result),
    ;

    /// The output ports.
    fn get_output_ports(&self) -> (ports: Vec<OutputPortDef>)
        ensures
            ports@ == self.output_ports(),
    ;
}

/// Makes processors.
pub trait ProcessorFactory<T> {
    /// The input ports, which stay the same for the life of the factory.
    open spec fn input_ports(&self) -> Seq<PortHandle> {
        arbitrary()
    }

    /// The output ports, which stay the same for the life of the factory.
    open spec fn output_ports(&self) -> Seq<OutputPortDef> {
        arbitrary()
    }

    /// What `get_output_schema` may return. By default it may return anything.
    open spec fn may_output(
        &self,
        port: PortHandle,
        input_schemas: Map<PortHandle, (Schema, T)>,
        result: Result<(Schema, T), FactoryError>,
    ) -> bool {
        true
    }

    /// The schema of the records that leave a port, given the schemas of those that come in.
    fn get_output_schema(
        &self,
        output_port: &PortHandle,
        input_schemas: &HashMap<PortHandle, (Schema, T)>,
    ) -> (result: Result<(Schema, T), FactoryError>)
        ensures
            self.may_output(*output_port, input_schemas@, result),
    ;

    /// The input ports.
    fn get_input_ports(&self) -> (ports: Vec<PortHandle>)
        ensures
            ports@ == self.input_ports(),
    ;

    /// The output ports.
    fn get_output_ports(&self) -> (ports: Vec<OutputPortDef>)
        ensures
            ports@ == self.output_ports(),
    ;
}

/// Makes sinks.
pub trait SinkFactory<T> {
    /// The input ports, which stay the same for the life of the factory.
    open spec fn input_ports(&self) -> Seq<PortHandle> {
        arbitrary()
    }

    /// Whether `prepare` may succeed, for `None`, or fail with an error. By default it may do
    /// either.
    open spec fn may_prepare(
        &self,
        input_schemas: Map<PortHandle, (Schema, T)>,
        failure: Option<FactoryError>,
    ) -> bool {
        true
    }

    /// The input ports.
    fn get_input_ports(&self) -> (ports: Vec<PortHandle>)
        ensures
            ports@ == self.input_ports(),
    ;

    /// Gets ready for records of the given schemas.
    fn prepare(&self, input_schemas: HashMap<PortHandle, (Schema, T)>) -> (result: Result<
        (),
        FactoryError,
    >)
        ensures
            self.may_prepare(
                input_schemas@,
                match result {
                    Ok(()) => None,
                    Err(error) => Some(error),
                },
            ),
    ;
}

/// What a node does.
#[verifier::reject_recursive_types(T)]
pub enum NodeKind<T> {
    Source(Box<dyn SourceFactory<T>>),
    Processor(Box<dyn ProcessorFactory<T>>),
    Sink(Box<dyn SinkFactory<T>>),
}

impl<T> NodeKind<T> {
    /// The input ports; a source has none.
    pub open spec fn input_ports(&self) -> Seq<PortHandle> {
        match self {
            NodeKind::Source(_) => Seq::empty(),
            NodeKind::Processor(processor) => processor.input_ports(),
            NodeKind::Sink(sink) => sink.input_ports(),
        }
    }

    /// The output ports; a sink has none.
    pub open spec fn output_ports(&self) -> Seq<OutputPortDef> {
        match self {
            NodeKind::Source(source) => source.output_ports(),
            NodeKind::Processor(processor) => processor.output_ports(),
            NodeKind::Sink(_) => Seq::empty(),
        }
    }

    /// The node has an output port of this name.
    pub open spec fn has_output_port(&self, handle: PortHandle) -> bool {
        exists|i: int|
            0 <= i < self.output_ports().len() && (#[trigger] self.output_ports()[i]).handle
                == handle
    }
}

/// A node: its name and what it does.
#[verifier::reject_recursive_types(T)]
pub struct NodeType<T> {
    pub handle: NodeHandle,
    pub kind: NodeKind<T>,
}

} // verus!
