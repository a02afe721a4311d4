//! Graph envelopes: a document written for the wire, with its domain's data
//! encoded by the domain's protocol adapter.

use vstd::prelude::*;
use serde_json::Value as Json;
use crate::model::Revision;
use super::document::GraphDocument;
use super::domain::{GraphDomain, PortRef};
use super::ids::{GraphEdgeId, GraphId, GraphNodeId};
use super::keys::sorted_keys;
use super::presentation::GraphPresentation;

verus! {

#[verifier::external_type_specification]
#[verifier::external_body]
pub struct ExJson(Json);

/// The version of the graph envelope format.
pub const GRAPH_ENVELOPE_VERSION: u32 = 1;

/// How a domain's graph, node and edge data are written into envelopes.
/// Each domain that is sent over the wire implements it.
pub trait GraphProtocolAdapter<D: GraphDomain> {
    fn domain_id(&self) -> &str;

    fn domain_schema_version(&self) -> u32;

    fn encode_graph_data(&self, data: &D::GraphData) -> Json;

    fn encode_node_data(&self, data: &D::NodeData) -> Json;

    fn encode_edge_data(&self, data: &D::EdgeData) -> Json;
}

#[derive(Debug, PartialEq)]
pub struct GraphNodeDto {
    pub id: GraphNodeId,
    pub data: Json,
}

#[derive(Debug, PartialEq)]
pub struct GraphEdgeDto {
    pub id: GraphEdgeId,
    pub from: PortRef,
    pub to: PortRef,
    pub data: Json,
}

#[derive(Debug, PartialEq)]
pub struct GraphDocumentDto {
    pub envelope_version: u32,
    pub domain_id: String,
    pub domain_schema_version: u32,
    pub graph_id: GraphId,
    pub revision: Revision,
    pub graph_data: Json,
    pub nodes: Vec<GraphNodeDto>,
    pub edges: Vec<GraphEdgeDto>,
    pub presentation: GraphPresentation,
}

impl GraphDocumentDto {
    /// The envelope of `graph`: its identity, revision and presentation, its
    /// nodes and edges in increasing identity order, and the domain's
    /// identity, schema version and data as `adapter` writes them.
    pub fn from_document<D: GraphDomain, A: GraphProtocolAdapter<D>>(graph: &GraphDocument<D>, adapter: &A) -> (dto:
        Self)
        requires
            graph.wf(),
        ensures
            dto.envelope_version == GRAPH_ENVELOPE_VERSION,
            exists|id: &str| call_ensures(A::domain_id, (adapter,), id) && dto.domain_id@ == id@,
            call_ensures(A::domain_schema_version, (adapter,), dto.domain_schema_version),
            dto.graph_id == graph.spec_id(),
            dto.revision == graph@.revision,
            call_ensures(A::encode_graph_data, (adapter, &graph.spec_graph_data()), dto.graph_data),
            dto.nodes@.len() == sorted_keys(graph@.nodes.dom()).len(),
            forall|i: int|
                0 <= i < dto.nodes@.len() ==> {
                    let node = graph@.nodes[sorted_keys(graph@.nodes.dom())[i]];
                    &&& (#[trigger] dto.nodes@[i]).id == node.id
                    &&& call_ensures(A::encode_node_data, (adapter, &node.data), dto.nodes@[i].data)
                },
            dto.edges@.len() == sorted_keys(graph@.edges.dom()).len(),
            forall|i: int|
                0 <= i < dto.edges@.len() ==> {
                    let edge = graph@.edges[sorted_keys(graph@.edges.dom())[i]];
                    &&& (#[trigger] dto.edges@[i]).id == edge.id
                    &&& dto.edges@[i].from == edge.from
                    &&& dto.edges@[i].to == edge.to
                    &&& call_ensures(A::encode_edge_data, (adapter, &edge.data), dto.edges@[i].data)
                },
            dto.presentation.nodes@ == graph@.node_presentation,
            dto.presentation.comments@ == graph@.comments,
            dto.presentation.groups@ == graph@.groups,
            dto.presentation.bookmarks@ == graph@.bookmarks,
    {
        let domain_id = adapter.domain_id();
        let domain_id_text = String::from_str(domain_id);
        let domain_schema_version = adapter.domain_schema_version();
        let graph_data = adapter.encode_graph_data(graph.graph_data());
        let graph_nodes = graph.nodes();
        let mut nodes: Vec<GraphNodeDto> = Vec::new();
        let mut i: usize = 0;
        while i < graph_nodes.len()
            invariant
                i <= graph_nodes@.len(),
                graph_nodes@.len() == sorted_keys(graph@.nodes.dom()).len(),
                forall|m: int|
                    0 <= m < graph_nodes@.len() ==> *(#[trigger] graph_nodes@[m]) == graph@.nodes[sorted_keys(
                        graph@.nodes.dom(),
                    )[m]],
                nodes@.len() == i,
                forall|m: int|
                    0 <= m < i ==> {
                        let node = graph@.nodes[sorted_keys(graph@.nodes.dom())[m]];
                        &&& (#[trigger] nodes@[m]).id == node.id
                        &&& call_ensures(A::encode_node_data, (adapter, &node.data), nodes@[m].data)
                    },
            decreases graph_nodes@.len() - i,
        {
            let node = graph_nodes[i];
            let data = adapter.encode_node_data(&node.data);
            nodes.push(GraphNodeDto { id: node.id, data });
            i = i + 1;
        }
        let graph_edges = graph.edges();
        let mut edges: Vec<GraphEdgeDto> = Vec::new();
        let mut j: usize = 0;
        while j < graph_edges.len()
            invariant
                j <= graph_edges@.len(),
                graph_edges@.len() == sorted_keys(graph@.edges.dom()).len(),
                forall|m: int|
                    0 <= m < graph_edges@.len() ==> *(#[trigger] graph_edges@[m]) == graph@.edges[sorted_keys(
                        graph@.edges.dom(),
                    )[m]],
                edges@.len() == j,
                forall|m: int|
                    0 <= m < j ==> {
                        let edge = graph@.edges[sorted_keys(graph@.edges.dom())[m]];
                        &&& (#[trigger] edges@[m]).id == edge.id
                        &&& edges@[m].from == edge.from
                        &&& edges@[m].to == edge.to
                        &&& call_ensures(A::encode_edge_data, (adapter, &edge.data), edges@[m].data)
                    },
            decreases graph_edges@.len() - j,
        {
            let edge = graph_edges[j];
            let data = adapter.encode_edge_data(&edge.data);
            edges.push(GraphEdgeDto { id: edge.id, from: edge.from, to: edge.to, data });
            j = j + 1;
        }
        GraphDocumentDto {
            envelope_version: GRAPH_ENVELOPE_VERSION,
            domain_id: domain_id_text,
            domain_schema_version,
            graph_id: graph.id(),
            revision: graph.revision(),
            graph_data,
            nodes,
            edges,
            presentation: graph.presentation().duplicate(),
        }
    }
}

} // verus!
