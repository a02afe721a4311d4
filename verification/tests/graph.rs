use std::collections::BTreeSet;
use std::sync::Arc;
use std::sync::atomic::{AtomicUsize, Ordering};

use golden::graph::document::{GraphDocument, GraphEdge, GraphNode};
use golden::graph::domain::{GraphDiagnostic, GraphDomain, PortDescriptor, PortDirection, PortRef};
use golden::graph::ids::{GraphEdgeId, GraphId, GraphNodeId, GraphPortId};
use golden::graph::presentation::{GraphComment, GraphGroup, Point, Size};
use golden::graph::protocol::{GraphDocumentDto, GraphProtocolAdapter, GRAPH_ENVELOPE_VERSION};
use golden::graph::transaction::{GraphChange, GraphOperation, GraphTransaction, GraphTransactionError};
use golden::graph::traversal::{stable_topological_order, strongly_connected_components};
use golden::model::{EntityId, Revision};

struct TestDomain;

#[derive(Debug)]
enum TestNode {
    Source,
    Pass,
    Sink,
    Counted(TrackedPayload),
}

#[derive(Debug)]
struct TrackedPayload {
    value: usize,
    clones: Arc<AtomicUsize>,
}

impl Clone for TrackedPayload {
    fn clone(&self) -> Self {
        self.clones.fetch_add(1, Ordering::Relaxed);
        Self { value: self.value, clones: Arc::clone(&self.clones) }
    }
}

#[derive(Clone, Debug, Eq, PartialEq)]
struct TestPort(&'static str);

impl GraphDomain for TestDomain {
    type GraphData = ();
    type NodeData = TestNode;
    type PortData = TestPort;
    type EdgeData = ();

    fn node_ports(&self, node: &TestNode, _graph: &GraphDocument<Self>) -> Vec<PortDescriptor<TestPort>> {
        let input = PortDescriptor { id: input_port(), direction: PortDirection::Input, data: TestPort("value") };
        let output = PortDescriptor { id: output_port(), direction: PortDirection::Output, data: TestPort("value") };
        match node {
            TestNode::Source => vec![output],
            TestNode::Sink => vec![input],
            TestNode::Pass | TestNode::Counted(_) => vec![input, output],
        }
    }

    fn validate_connection(
        &self,
        _graph: &GraphDocument<Self>,
        _from_node: Option<&TestNode>,
        _to_node: Option<&TestNode>,
        from: PortRef,
        to: PortRef,
        _edge: &(),
    ) -> Result<(), GraphDiagnostic> {
        if from.node == to.node {
            Err(GraphDiagnostic::error("self_edge".to_string(), "self edges are forbidden".to_string()))
        } else {
            Ok(())
        }
    }
}

fn input_port() -> GraphPortId {
    GraphPortId::from_entity(EntityId::from_u128(1))
}

fn output_port() -> GraphPortId {
    GraphPortId::from_entity(EntityId::from_u128(2))
}

fn node(id: GraphNodeId, data: TestNode) -> GraphNode<TestDomain> {
    GraphNode { id, data }
}

fn edge(from: GraphNodeId, to: GraphNodeId) -> GraphEdge<TestDomain> {
    edge_with_id(GraphEdgeId::new(), from, to)
}

fn edge_with_id(id: GraphEdgeId, from: GraphNodeId, to: GraphNodeId) -> GraphEdge<TestDomain> {
    GraphEdge {
        id,
        from: PortRef { node: from, port: output_port() },
        to: PortRef { node: to, port: input_port() },
        data: (),
    }
}

fn insert(id: GraphNodeId, data: TestNode) -> GraphOperation<TestDomain> {
    GraphOperation::InsertNode { node: node(id, data), presentation: None }
}

fn empty_graph() -> GraphDocument<TestDomain> {
    GraphDocument::new(GraphId::new(), TestDomain, ())
}

#[test]
fn transactions_emit_precise_changes_and_update_indexes() {
    let mut graph = empty_graph();
    let source = GraphNodeId::new();
    let sink = GraphNodeId::new();
    let connection = GraphEdgeId::new();
    let mut transaction = GraphTransaction::new(Revision::zero());
    transaction.push(insert(source, TestNode::Source));
    transaction.push(insert(sink, TestNode::Sink));
    transaction.push(GraphOperation::Connect { edge: edge_with_id(connection, source, sink) });

    let commit = graph.apply(transaction).unwrap();
    assert_eq!(
        commit.change_set.changes,
        [GraphChange::NodeInserted(source), GraphChange::NodeInserted(sink), GraphChange::EdgeInserted(connection)]
    );
    assert_eq!(commit.change_set.before, Revision::zero());
    assert_eq!(commit.change_set.after, Revision::new(1));
    assert_eq!(graph.revision(), Revision::new(1));
    assert_eq!(graph.outgoing_edges(source).len(), 1);
    assert_eq!(graph.incoming_edges(sink).len(), 1);
    graph.assert_invariants().unwrap();
}

/// Applies one operation to a graph holding a source, a pass and a sink.
fn refusal_of(operation: impl FnOnce(GraphNodeId, GraphNodeId, GraphNodeId) -> GraphOperation<TestDomain>) -> GraphTransactionError {
    let mut graph = empty_graph();
    let source = GraphNodeId::from_entity(EntityId::from_u128(10));
    let pass = GraphNodeId::from_entity(EntityId::from_u128(20));
    let sink = GraphNodeId::from_entity(EntityId::from_u128(30));
    let mut setup = GraphTransaction::new(Revision::zero());
    setup.push(insert(source, TestNode::Source));
    setup.push(insert(pass, TestNode::Pass));
    setup.push(insert(sink, TestNode::Sink));
    setup.push(GraphOperation::Connect {
        edge: edge_with_id(GraphEdgeId::from_entity(EntityId::from_u128(99)), source, sink),
    });
    graph.apply(setup).unwrap();
    let mut transaction = GraphTransaction::new(Revision::new(1));
    transaction.push(operation(source, pass, sink));
    let error = graph.apply(transaction).unwrap_err();
    assert_eq!(graph.revision(), Revision::new(1));
    assert_eq!(graph.nodes().len(), 3);
    assert_eq!(graph.edges().len(), 1);
    error
}

#[test]
fn connections_are_refused_for_a_taken_identity_a_missing_port_or_the_domain_rule() {
    let taken = refusal_of(|source, pass, _| GraphOperation::Connect {
        edge: edge_with_id(GraphEdgeId::from_entity(EntityId::from_u128(99)), source, pass),
    });
    assert!(matches!(taken, GraphTransactionError::DuplicateEdge(id) if id == GraphEdgeId::from_entity(EntityId::from_u128(99))));

    let no_output = refusal_of(|_, pass, sink| GraphOperation::Connect { edge: edge(sink, pass) });
    assert!(matches!(no_output, GraphTransactionError::MissingPort(port) if port.port == output_port()));

    let no_input = refusal_of(|source, pass, _| GraphOperation::Connect { edge: edge(pass, source) });
    assert!(matches!(no_input, GraphTransactionError::MissingPort(port) if port.port == input_port()));

    let absent = GraphNodeId::from_entity(EntityId::from_u128(77));
    let missing_node = refusal_of(move |_, pass, _| GraphOperation::Connect { edge: edge(absent, pass) });
    assert!(matches!(missing_node, GraphTransactionError::MissingPort(port) if port.node == absent));

    let rejected = refusal_of(|_, pass, _| GraphOperation::Connect { edge: edge(pass, pass) });
    match rejected {
        GraphTransactionError::Connection(diagnostic) => assert_eq!(diagnostic.code, "self_edge"),
        other => panic!("unexpected refusal {other:?}"),
    }
}

#[test]
fn refused_operations_name_what_they_miss() {
    let duplicate = refusal_of(|source, _, _| insert(source, TestNode::Pass));
    assert!(matches!(duplicate, GraphTransactionError::DuplicateNode(id) if id == GraphNodeId::from_entity(EntityId::from_u128(10))));

    let ghost = GraphNodeId::from_entity(EntityId::from_u128(5));
    let missing = refusal_of(move |_, _, _| GraphOperation::RemoveNode { node: ghost });
    assert!(matches!(missing, GraphTransactionError::MissingNode(id) if id == ghost));

    let edge_id = GraphEdgeId::from_entity(EntityId::from_u128(6));
    let no_edge = refusal_of(move |_, _, _| GraphOperation::Disconnect { edge: edge_id });
    assert!(matches!(no_edge, GraphTransactionError::MissingEdge(id) if id == edge_id));

    let group = refusal_of(|source, _, _| {
        let mut nodes = BTreeSet::new();
        nodes.insert(source.as_entity().as_u128());
        nodes.insert(50);
        nodes.insert(40);
        GraphOperation::UpsertGroup(GraphGroup { id: EntityId::from_u128(8), label: "g".to_string(), nodes })
    });
    assert!(matches!(group, GraphTransactionError::MissingNode(id) if id == GraphNodeId::from_entity(EntityId::from_u128(40))));
    assert_eq!(group.message(), "node does not exist");
}

#[test]
fn failed_transactions_roll_back_every_prior_operation() {
    let mut graph = empty_graph();
    let source = GraphNodeId::new();
    let mut transaction = GraphTransaction::new(Revision::zero());
    transaction.push(insert(source, TestNode::Source));
    transaction.push(GraphOperation::Connect { edge: edge(source, source) });
    assert!(graph.apply(transaction).is_err());
    assert_eq!(graph.revision(), Revision::zero());
    assert_eq!(graph.nodes().len(), 0);
    assert_eq!(graph.edges().len(), 0);
}

#[test]
fn removing_a_node_removes_all_incident_edges_atomically() {
    let mut graph = empty_graph();
    let source = GraphNodeId::new();
    let pass = GraphNodeId::new();
    let sink = GraphNodeId::new();
    let mut setup = GraphTransaction::new(Revision::zero());
    setup.push(insert(source, TestNode::Source));
    setup.push(insert(pass, TestNode::Pass));
    setup.push(insert(sink, TestNode::Sink));
    setup.push(GraphOperation::Connect { edge: edge(source, pass) });
    setup.push(GraphOperation::Connect { edge: edge(pass, sink) });
    graph.apply(setup).unwrap();

    let mut remove = GraphTransaction::new(graph.revision());
    remove.push(GraphOperation::RemoveNode { node: pass });
    let commit = graph.apply(remove).unwrap();
    assert_eq!(graph.nodes().len(), 2);
    assert_eq!(graph.edges().len(), 0);
    assert_eq!(
        commit.change_set.changes.iter().filter(|change| matches!(change, GraphChange::EdgeRemoved(_))).count(),
        2
    );
}

#[test]
fn traversal_is_stable_and_reports_cycles_as_components() {
    let mut graph = empty_graph();
    let a = GraphNodeId::new();
    let b = GraphNodeId::new();
    let c = GraphNodeId::new();
    let mut setup = GraphTransaction::new(Revision::zero());
    setup.push(insert(a, TestNode::Pass));
    setup.push(insert(b, TestNode::Pass));
    setup.push(insert(c, TestNode::Pass));
    setup.push(GraphOperation::Connect { edge: edge(a, b) });
    setup.push(GraphOperation::Connect { edge: edge(b, c) });
    graph.apply(setup).unwrap();
    assert_eq!(stable_topological_order(&graph).unwrap(), [a, b, c]);

    let mut cycle = GraphTransaction::new(graph.revision());
    cycle.push(GraphOperation::Connect { edge: edge(c, a) });
    graph.apply(cycle).unwrap();
    assert!(stable_topological_order(&graph).is_err());
    let mut expected_component = vec![a, b, c];
    expected_component.sort_unstable();
    assert_eq!(strongly_connected_components(&graph), [expected_component]);
}

#[test]
fn one_node_replacement_does_not_clone_the_document() {
    let clones = Arc::new(AtomicUsize::new(0));
    let mut graph = empty_graph();
    let mut setup = GraphTransaction::new(Revision::zero());
    let mut ids = Vec::new();
    for value in 0..10_000 {
        let id = GraphNodeId::new();
        ids.push(id);
        setup.push(insert(id, TestNode::Counted(TrackedPayload { value, clones: Arc::clone(&clones) })));
    }
    graph.apply(setup).unwrap();
    clones.store(0, Ordering::Relaxed);

    let mut replace = GraphTransaction::new(graph.revision());
    replace.push(GraphOperation::ReplaceNode {
        node: ids[5_000],
        data: TestNode::Counted(TrackedPayload { value: usize::MAX, clones: Arc::clone(&clones) }),
    });
    graph.apply(replace).unwrap();
    assert_eq!(clones.load(Ordering::Relaxed), 0);
    let TestNode::Counted(payload) = &graph.node(ids[5_000]).unwrap().data else {
        panic!("replaced node should retain tracked payload data");
    };
    assert_eq!(payload.value, usize::MAX);
}

#[test]
fn deterministic_mutation_sequences_preserve_topology_properties() {
    let mut graph = empty_graph();
    let records = (0..256).map(|_| GraphNodeId::new()).collect::<Vec<_>>();
    let mut insert_all = GraphTransaction::new(Revision::zero());
    for record in records.iter() {
        insert_all.push(insert(*record, TestNode::Pass));
    }
    graph.apply(insert_all).unwrap();

    let mut seed = 0x5eed_u64;
    let mut connect = GraphTransaction::new(graph.revision());
    for _ in 0..512 {
        seed = seed.wrapping_mul(6_364_136_223_846_793_005).wrapping_add(1);
        let from = (seed as usize) % records.len();
        seed = seed.wrapping_mul(6_364_136_223_846_793_005).wrapping_add(1);
        let mut to = (seed as usize) % records.len();
        if from == to {
            to = (to + 1) % records.len();
        }
        connect.push(GraphOperation::Connect { edge: edge(records[from], records[to]) });
    }
    graph.apply(connect).unwrap();

    let mut remove = GraphTransaction::new(graph.revision());
    for record in records.iter().step_by(4) {
        remove.push(GraphOperation::RemoveNode { node: *record });
    }
    graph.apply(remove).unwrap();
    graph.assert_invariants().unwrap();
    assert!(graph.edges().iter().all(|edge| graph.node(edge.from.node).is_some() && graph.node(edge.to.node).is_some()));
}

#[test]
fn presentation_operations_participate_in_transaction_rollback() {
    let mut graph = empty_graph();
    let comment_id = EntityId::new();
    let mut transaction = GraphTransaction::new(Revision::zero());
    transaction.push(GraphOperation::UpsertComment(GraphComment {
        id: comment_id,
        text: "note".to_owned(),
        position: Point::new(1.0f64.to_bits(), 2.0f64.to_bits()).unwrap(),
        size: Size::new(3.0f64.to_bits(), 4.0f64.to_bits()).unwrap(),
    }));
    transaction.push(GraphOperation::UpsertGroup(GraphGroup {
        id: EntityId::new(),
        label: "invalid".into(),
        nodes: [GraphNodeId::new().0.0].into_iter().collect::<BTreeSet<u128>>(),
    }));
    assert!(graph.apply(transaction).is_err());
    assert!(graph.presentation().comments.is_empty());
    assert!(graph.presentation().groups.is_empty());
    assert_eq!(graph.revision(), Revision::zero());
}

#[test]
fn empty_transactions_are_refused() {
    let mut graph = empty_graph();
    let transaction = GraphTransaction::<TestDomain>::new(Revision::zero());
    assert!(graph.apply(transaction).is_err());
    assert_eq!(graph.revision(), Revision::zero());
}

#[test]
fn stale_transactions_conflict_with_the_current_revision() {
    let mut graph = empty_graph();
    let mut first = GraphTransaction::new(Revision::zero());
    first.push(insert(GraphNodeId::new(), TestNode::Source));
    graph.apply(first).unwrap();
    assert_eq!(graph.revision(), Revision::new(1));
    let mut stale = GraphTransaction::new(Revision::zero());
    stale.push(insert(GraphNodeId::new(), TestNode::Sink));
    assert!(graph.apply(stale).is_err());
    assert_eq!(graph.nodes().len(), 1);
}

#[test]
fn non_finite_coordinates_are_refused() {
    assert!(Point::new(f64::NAN.to_bits(), 0.0f64.to_bits()).is_err());
    assert!(Size::new(1.0f64.to_bits(), f64::INFINITY.to_bits()).is_err());
    assert!(Point::new(1.5f64.to_bits(), (-2.0f64).to_bits()).is_ok());
}

#[test]
fn cycles_report_every_node_they_feed() {
    let mut graph = empty_graph();
    let ids = [GraphNodeId::new(), GraphNodeId::new(), GraphNodeId::new(), GraphNodeId::new()];
    let mut setup = GraphTransaction::new(Revision::zero());
    for id in ids {
        setup.push(insert(id, TestNode::Pass));
    }
    setup.push(GraphOperation::Connect { edge: edge(ids[1], ids[2]) });
    setup.push(GraphOperation::Connect { edge: edge(ids[2], ids[1]) });
    setup.push(GraphOperation::Connect { edge: edge(ids[2], ids[3]) });
    graph.apply(setup).unwrap();
    let cycle = stable_topological_order(&graph).unwrap_err();
    let mut expected = vec![ids[1], ids[2], ids[3]];
    expected.sort_unstable();
    assert_eq!(cycle.remaining, expected);
}

#[test]
fn independent_nodes_come_in_identity_order() {
    let mut graph = empty_graph();
    let high = GraphNodeId::from_entity(EntityId::from_u128(30));
    let low = GraphNodeId::from_entity(EntityId::from_u128(10));
    let middle = GraphNodeId::from_entity(EntityId::from_u128(20));
    let mut setup = GraphTransaction::new(Revision::zero());
    setup.push(insert(high, TestNode::Pass));
    setup.push(insert(low, TestNode::Pass));
    setup.push(insert(middle, TestNode::Pass));
    setup.push(GraphOperation::Connect { edge: edge(high, low) });
    graph.apply(setup).unwrap();
    assert_eq!(stable_topological_order(&graph).unwrap(), [middle, high, low]);
}

#[test]
fn components_group_exactly_the_nodes_that_reach_each_other() {
    let id = |n: u128| GraphNodeId::from_entity(EntityId::from_u128(n));
    let (a, b, c, d, e) = (id(10), id(20), id(30), id(40), id(50));
    let mut graph = empty_graph();
    let mut setup = GraphTransaction::new(Revision::zero());
    for node_id in [e, d, c, b, a] {
        setup.push(insert(node_id, TestNode::Pass));
    }
    setup.push(GraphOperation::Connect { edge: edge(a, d) });
    setup.push(GraphOperation::Connect { edge: edge(d, a) });
    setup.push(GraphOperation::Connect { edge: edge(d, b) });
    setup.push(GraphOperation::Connect { edge: edge(b, c) });
    setup.push(GraphOperation::Connect { edge: edge(c, b) });
    setup.push(GraphOperation::Connect { edge: edge(c, e) });
    graph.apply(setup).unwrap();
    assert_eq!(strongly_connected_components(&graph), vec![vec![a, d], vec![b, c], vec![e]]);
}

struct TestProtocolAdapter;

impl GraphProtocolAdapter<TestDomain> for TestProtocolAdapter {
    fn domain_id(&self) -> &str {
        "test"
    }

    fn domain_schema_version(&self) -> u32 {
        3
    }

    fn encode_graph_data(&self, _data: &()) -> serde_json::Value {
        serde_json::Value::Null
    }

    fn encode_node_data(&self, data: &TestNode) -> serde_json::Value {
        serde_json::Value::String(
            match data {
                TestNode::Source => "source",
                TestNode::Pass => "pass",
                TestNode::Sink => "sink",
                TestNode::Counted(_) => "tracked",
            }
            .to_owned(),
        )
    }

    fn encode_edge_data(&self, _data: &()) -> serde_json::Value {
        serde_json::Value::Null
    }
}

#[test]
fn protocol_envelopes_require_an_explicit_domain_adapter() {
    let mut graph = empty_graph();
    let source = GraphNodeId::new();
    let mut transaction = GraphTransaction::new(Revision::zero());
    transaction.push(insert(source, TestNode::Source));
    graph.apply(transaction).unwrap();

    let dto = GraphDocumentDto::from_document(&graph, &TestProtocolAdapter);
    assert_eq!(dto.envelope_version, GRAPH_ENVELOPE_VERSION);
    assert_eq!(dto.domain_id, "test");
    assert_eq!(dto.domain_schema_version, 3);
    assert_eq!(dto.nodes.len(), 1);
    assert_eq!(dto.nodes[0].id, source);
    assert_eq!(dto.nodes[0].data, serde_json::Value::String("source".into()));
    assert_eq!(dto.revision, graph.revision());
    assert!(dto.edges.is_empty());
}
