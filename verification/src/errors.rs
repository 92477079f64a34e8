//! What can be wrong with a pipeline.

use vstd::prelude::*;

use crate::node::{FactoryError, NodeHandle, PortHandle};

verus! {

/// Why a pipeline could not be built.
#[derive(Debug, PartialEq, Eq)]
pub enum ExecutionError {
    /// The node has no such port.
    InvalidPortHandle(PortHandle),
    /// The edge would have closed a cycle.
    WouldCycle,
    /// Nothing is connected to an input port.
    MissingInput { node: NodeHandle, port: PortHandle },
    /// More than one edge is connected to an input port.
    DuplicateInput { node: NodeHandle, port: PortHandle },
    /// A factory failed.
    Factory(FactoryError),
}

/// Why the nodes of a pipeline are not connected as their ports ask for.
#[derive(Debug, PartialEq, Eq)]
pub enum ConnectivityError {
    /// A source or a processor has no outgoing edge.
    NoOutgoingEdge { node: NodeHandle },
    /// A processor or a sink has no input port.
    NoInputPort { node: NodeHandle },
    /// The incoming edges of a node are not those of its input ports. Both lists are sorted.
    InputPortsMismatch {
        node: NodeHandle,
        input_ports: Vec<PortHandle>,
        connected_input_ports: Vec<PortHandle>,
    },
}

} // verus!
