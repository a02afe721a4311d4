//! Ports, diagnostics and the domain hook through which a graph's users
//! describe node ports and accept or reject connections.

use vstd::prelude::*;
use crate::model::EntityId;
use super::document::GraphDocument;
use super::ids::{GraphNodeId, GraphPortId};
use super::transaction::GraphChangeSet;

verus! {

#[derive(Clone, Copy, Debug, PartialEq, Eq, Structural)]
pub enum PortDirection {
    Input,
    Output,
}

/// A port of a node.
#[derive(Clone, Copy, Debug, PartialEq, Eq, Structural)]
pub struct PortRef {
    pub node: GraphNodeId,
    pub port: GraphPortId,
}

/// A port that a node offers, with its domain data.
#[derive(Clone, Debug)]
pub struct PortDescriptor<P> {
    pub id: GraphPortId,
    pub direction: PortDirection,
    pub data: P,
}

#[derive(Clone, Copy, Debug, PartialEq, Eq, Structural)]
pub enum DiagnosticSeverity {
    Warning,
    Error,
}

#[derive(Clone, Debug)]
pub struct GraphDiagnostic {
    pub severity: DiagnosticSeverity,
    pub code: String,
    pub message: String,
    pub entities: Vec<EntityId>,
}

impl GraphDiagnostic {
    /// An error-severity diagnostic about no entity in particular.
    pub fn error(code: String, message: String) -> (diagnostic: Self)
        ensures
            diagnostic.severity == DiagnosticSeverity::Error,
            diagnostic.code == code,
            diagnostic.message == message,
            diagnostic.entities@.len() == 0,
    {
        GraphDiagnostic { severity: DiagnosticSeverity::Error, code, message, entities: Vec::new() }
    }
}

/// The domain of a graph: the data its graph, nodes, ports and edges carry,
/// and the domain's rules. Implemented by the graph's users; nothing is
/// assumed of what an implementation returns.
pub trait GraphDomain: Sized {
    type GraphData;
    type NodeData;
    type PortData;
    type EdgeData;

    /// The ports of a node with data `node`.
    fn node_ports(&self, node: &Self::NodeData, graph: &GraphDocument<Self>) -> Vec<PortDescriptor<Self::PortData>>;

    /// Accepts or rejects an edge from output port `from` to input port `to`;
    /// `from_node` and `to_node` are the data of their nodes in `graph`,
    /// handed over because an implementation cannot look nodes up through
    /// the document's methods, which are themselves generic over the domain.
    fn validate_connection(
        &self,
        graph: &GraphDocument<Self>,
        from_node: Option<&Self::NodeData>,
        to_node: Option<&Self::NodeData>,
        from: PortRef,
        to: PortRef,
        edge: &Self::EdgeData,
    ) -> Result<(), GraphDiagnostic>;

    /// Whether the domain's whole-graph validation accepts every graph
    /// without diagnostics; a domain that says so is held to it.
    open spec fn accepts_every_graph(&self) -> bool {
        false
    }

    /// Whole-graph validation after a transaction's operations; any
    /// error-severity diagnostic rejects the transaction.
    fn validate_graph(&self, graph: &GraphDocument<Self>, changes: &GraphChangeSet) -> (diagnostics: Vec<GraphDiagnostic>)
        ensures
            self.accepts_every_graph() ==> diagnostics@.len() == 0,
    {
        Vec::new()
    }
}

} // verus!
