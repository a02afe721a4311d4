//! A formula made of one node whose ports are the formula's surface.

use std::collections::BTreeMap;
use vstd::prelude::*;
use crate::model::Revision;
use crate::values::Value;
use crate::graph::document::{GraphDocument, GraphNode, GraphState};
use crate::graph::domain::PortRef;
use crate::graph::ids::{GraphId, GraphNodeId, GraphPortId};
use crate::graph::transaction::{GraphOperation, GraphTransaction, transaction_effect};
use super::{ANodeTypeId, AlchemistGraphData, AlchemistGraphDomain, AlchemistNode, AlchemistPort, FormulaId, FormulaSchema, SurfaceItemId};
use super::formula::{AlchemistFormula, FormulaDefaults, FormulaMetadata, FormulaSurface, SurfaceInput, SurfaceOutput};

verus! {

/// An input of a single-node formula: the node's input port and the
/// surface input feeding it.
pub struct SingleNodeInputSpec {
    pub name: String,
    pub label: String,
    pub value_type: String,
    pub default: Value,
}

/// An output of a single-node formula: the node's output port and the
/// surface output reading it.
pub struct SingleNodeOutputSpec {
    pub name: String,
    pub label: String,
    pub value_type: String,
}

/// A formula of one node of type `node_type`.
pub struct SingleNodeFormulaSpec {
    pub id: FormulaId,
    pub name: String,
    pub description: String,
    pub tags: Vec<String>,
    pub node_type: ANodeTypeId,
    pub inputs: Vec<SingleNodeInputSpec>,
    pub outputs: Vec<SingleNodeOutputSpec>,
}

/// `port` is the port that `spec` describes.
pub open spec fn port_named(port: AlchemistPort, name: String, value_type: String) -> bool {
    port.name == name && port.value_type == value_type
}

/// The ports and surface inputs made for `inputs` on node `node`.
pub open spec fn inputs_built(
    node: GraphNodeId,
    specs: Seq<SingleNodeInputSpec>,
    ports: Seq<AlchemistPort>,
    surface: Seq<SurfaceInput>,
) -> bool {
    &&& ports.len() == specs.len()
    &&& surface.len() == specs.len()
    &&& forall|i: int|
        0 <= i < specs.len() ==> {
            &&& port_named(#[trigger] ports[i], specs[i].name, specs[i].value_type)
            &&& surface[i].label == specs[i].label
            &&& surface[i].target == (PortRef { node, port: ports[i].id })
            &&& surface[i].value_type == specs[i].value_type
            &&& surface[i].default == specs[i].default
        }
}

/// The ports and surface outputs made for `outputs` on node `node`.
pub open spec fn outputs_built(
    node: GraphNodeId,
    specs: Seq<SingleNodeOutputSpec>,
    ports: Seq<AlchemistPort>,
    surface: Seq<SurfaceOutput>,
) -> bool {
    &&& ports.len() == specs.len()
    &&& surface.len() == specs.len()
    &&& forall|i: int|
        0 <= i < specs.len() ==> {
            &&& port_named(#[trigger] ports[i], specs[i].name, specs[i].value_type)
            &&& surface[i].label == specs[i].label
            &&& surface[i].source == (PortRef { node, port: ports[i].id })
            &&& surface[i].value_type == specs[i].value_type
        }
}

/// The formula of one node of type `spec.node_type` with a fresh identity,
/// one input port per input and one output port per output, each with a
/// fresh identity, and a surface input or output on each port; the graph
/// holds that node alone at revision one.
pub fn build_single_node_formula(spec: SingleNodeFormulaSpec) -> (formula: AlchemistFormula)
    ensures
        ({
            &&& formula.id == spec.id
            &&& formula.schema == (FormulaSchema { version: 1 })
            &&& formula.properties@.len() == 0
            &&& formula.managed_regions@.len() == 0
            &&& formula.metadata.name == spec.name
            &&& formula.metadata.description == spec.description
            &&& formula.metadata.tags == spec.tags
            &&& formula.defaults.properties@ == Map::<super::formula::FormulaPropertyId, Value>::empty()
            &&& formula.graph.spec_graph_data().name == spec.name
            &&& formula.graph.wf()
            &&& formula.graph@.revision == Revision(1)
            &&& formula.graph@.edges.dom().len() == 0
            &&& exists|node: GraphNode<AlchemistGraphDomain>|
                {
                    &&& formula.graph@.nodes == Map::<u128, GraphNode<AlchemistGraphDomain>>::empty().insert(
                        node.id.key(),
                        node,
                    )
                    &&& node.data.node_type == spec.node_type
                    &&& node.data.config@.len() == 0
                    &&& inputs_built(node.id, spec.inputs@, node.data.inputs@, formula.surface.inputs@)
                    &&& outputs_built(node.id, spec.outputs@, node.data.outputs@, formula.surface.outputs@)
                }
        }),
{
    let node_id = GraphNodeId::new();
    let ghost input_specs = spec.inputs@;
    let ghost output_specs = spec.outputs@;
    let mut input_ports: Vec<AlchemistPort> = Vec::new();
    let mut surface_inputs: Vec<SurfaceInput> = Vec::new();
    let mut inputs = spec.inputs;
    let mut i: usize = 0;
    let count = inputs.len();
    while inputs.len() > 0
        invariant
            i + inputs@.len() == count,
            count == input_specs.len(),
            inputs@ == input_specs.skip(i as int),
            inputs_built(node_id, input_specs.take(i as int), input_ports@, surface_inputs@),
        decreases inputs@.len(),
    {
        let input = inputs.remove(0);
        assert(input == input_specs[i as int]);
        let port = AlchemistPort { id: GraphPortId::new(), name: input.name, value_type: input.value_type.clone() };
        let surface = SurfaceInput {
            id: SurfaceItemId::new(),
            label: input.label,
            target: PortRef { node: node_id, port: port.id },
            value_type: input.value_type,
            default: input.default,
        };
        input_ports.push(port);
        surface_inputs.push(surface);
        i = i + 1;
        assert(inputs@ =~= input_specs.skip(i as int));
        assert forall|j: int| 0 <= j < i implies {
            &&& port_named(#[trigger] input_ports@[j], input_specs.take(i as int)[j].name, input_specs.take(i as int)[j].value_type)
            &&& surface_inputs@[j].label == input_specs.take(i as int)[j].label
            &&& surface_inputs@[j].target == (PortRef { node: node_id, port: input_ports@[j].id })
            &&& surface_inputs@[j].value_type == input_specs.take(i as int)[j].value_type
            &&& surface_inputs@[j].default == input_specs.take(i as int)[j].default
        } by {
            if j < i - 1 {
                assert(input_specs.take(i as int)[j] == input_specs.take(i - 1)[j]);
            }
        }
    }
    assert(input_specs.take(count as int) =~= input_specs);
    let mut output_ports: Vec<AlchemistPort> = Vec::new();
    let mut surface_outputs: Vec<SurfaceOutput> = Vec::new();
    let mut outputs = spec.outputs;
    let mut k: usize = 0;
    let output_count = outputs.len();
    while outputs.len() > 0
        invariant
            k + outputs@.len() == output_count,
            output_count == output_specs.len(),
            outputs@ == output_specs.skip(k as int),
            outputs_built(node_id, output_specs.take(k as int), output_ports@, surface_outputs@),
        decreases outputs@.len(),
    {
        let output = outputs.remove(0);
        assert(output == output_specs[k as int]);
        let port = AlchemistPort { id: GraphPortId::new(), name: output.name, value_type: output.value_type.clone() };
        let surface = SurfaceOutput {
            id: SurfaceItemId::new(),
            label: output.label,
            source: PortRef { node: node_id, port: port.id },
            value_type: output.value_type,
        };
        output_ports.push(port);
        surface_outputs.push(surface);
        k = k + 1;
        assert(outputs@ =~= output_specs.skip(k as int));
        assert forall|j: int| 0 <= j < k implies {
            &&& port_named(#[trigger] output_ports@[j], output_specs.take(k as int)[j].name, output_specs.take(k as int)[j].value_type)
            &&& surface_outputs@[j].label == output_specs.take(k as int)[j].label
            &&& surface_outputs@[j].source == (PortRef { node: node_id, port: output_ports@[j].id })
            &&& surface_outputs@[j].value_type == output_specs.take(k as int)[j].value_type
        } by {
            if j < k - 1 {
                assert(output_specs.take(k as int)[j] == output_specs.take(k - 1)[j]);
            }
        }
    }
    assert(output_specs.take(output_count as int) =~= output_specs);
    let node = GraphNode {
        id: node_id,
        data: AlchemistNode { node_type: spec.node_type, inputs: input_ports, outputs: output_ports, config: Vec::new() },
    };
    let ghost built = node;
    let mut graph = GraphDocument::new(GraphId::new(), AlchemistGraphDomain, AlchemistGraphData { name: spec.name.clone() });
    let mut transaction = GraphTransaction::new(Revision::zero());
    transaction.push(GraphOperation::InsertNode { node, presentation: None });
    let ghost ops = transaction.operations@;
    let ghost empty = graph@;
    assert(ops =~= seq![GraphOperation::InsertNode { node: built, presentation: None }]);
    let outcome = graph.apply(transaction);
    proof {
        assert(ops[0] is InsertNode);
        assert(outcome is Ok);
        assert(ops.drop_last() =~= Seq::<GraphOperation<AlchemistGraphDomain>>::empty());
        assert(empty == GraphState::<AlchemistGraphDomain>::empty());
        let state = GraphState::<AlchemistGraphDomain>::empty().with_node(built, None);
        assert(transaction_effect(empty, ops.drop_last()) == Some((empty, Seq::<crate::graph::transaction::GraphChange>::empty())));
        assert(transaction_effect(empty, ops).unwrap().0 == state);
        assert(graph@ == state.with_revision(Revision(1)));
        assert(state.edges.dom() =~= Set::<u128>::empty());
        assert(graph@.nodes =~= Map::<u128, GraphNode<AlchemistGraphDomain>>::empty().insert(built.id.key(), built));
    }
    AlchemistFormula {
        id: spec.id,
        schema: FormulaSchema { version: 1 },
        graph,
        properties: Vec::new(),
        surface: FormulaSurface { inputs: surface_inputs, outputs: surface_outputs },
        managed_regions: Vec::new(),
        metadata: FormulaMetadata { name: spec.name, description: spec.description, tags: spec.tags },
        defaults: FormulaDefaults { properties: BTreeMap::new() },
    }
}

} // verus!
