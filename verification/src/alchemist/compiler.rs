//! Compilation of formulas into dense kernels: every port gets a value
//! slot, surface items are bound to slots, and the nodes become operations
//! in a stable topological order.

use std::collections::{BTreeMap, BTreeSet};
use std::sync::Arc;
use vstd::prelude::*;
use vstd::string::*;
use vstd::std_specs::btree::spec_values_iter;
use vstd::std_specs::iter::IteratorSpec;
use crate::text::strings_equal;
use crate::values::{Value, ValueView, value_type_name, value_views};
use crate::graph::domain::PortRef;
use crate::graph::document::{GraphDocument, GraphEdge, GraphNode, GraphState, incoming_of};
use crate::graph::ids::GraphNodeId;
use crate::graph::traversal::{node_keys, stable_prefix, stable_topological_order, stopped_by_cycle};
use crate::model::Revision;
use crate::graph::keys::sorted_keys;
use super::{
    ANodeDefinition, ANodeRegistry, AlchemistGraphDomain, AlchemistNode, AlchemistPort, BuiltinOperation, CompileKey, ExecNodeId,
    FormulaId, StateLayout, SurfaceItemId, ValueSlot, definition_named,
};
use super::formula::{AlchemistFormula, SurfaceInput, SurfaceOutput};

verus! {

/// One executable step of a kernel, reading and writing value slots.
#[derive(Clone, Debug, PartialEq, Eq)]
pub enum CompiledOp {
    Constant { node: ExecNodeId, value: Value, output: ValueSlot },
    AddFloat { node: ExecNodeId, left: ValueSlot, right: ValueSlot, output: ValueSlot },
    MultiplyFloat { node: ExecNodeId, left: ValueSlot, right: ValueSlot, output: ValueSlot },
    PassThrough { node: ExecNodeId, input: ValueSlot, output: ValueSlot },
    ConditionGate { node: ExecNodeId, condition: ValueSlot, value: ValueSlot, output: ValueSlot },
}

impl CompiledOp {
    pub open spec fn spec_output(self) -> ValueSlot {
        match self {
            CompiledOp::Constant { output, .. } => output,
            CompiledOp::AddFloat { output, .. } => output,
            CompiledOp::MultiplyFloat { output, .. } => output,
            CompiledOp::PassThrough { output, .. } => output,
            CompiledOp::ConditionGate { output, .. } => output,
        }
    }

    pub open spec fn spec_node(self) -> ExecNodeId {
        match self {
            CompiledOp::Constant { node, .. } => node,
            CompiledOp::AddFloat { node, .. } => node,
            CompiledOp::MultiplyFloat { node, .. } => node,
            CompiledOp::PassThrough { node, .. } => node,
            CompiledOp::ConditionGate { node, .. } => node,
        }
    }

    /// The slot the operation writes.
    pub fn output(&self) -> (slot: ValueSlot)
        ensures
            slot == self.spec_output(),
    {
        match self {
            CompiledOp::Constant { output, .. } => *output,
            CompiledOp::AddFloat { output, .. } => *output,
            CompiledOp::MultiplyFloat { output, .. } => *output,
            CompiledOp::PassThrough { output, .. } => *output,
            CompiledOp::ConditionGate { output, .. } => *output,
        }
    }

    /// The executable node the operation belongs to.
    pub fn node(&self) -> (node: ExecNodeId)
        ensures
            node == self.spec_node(),
    {
        match self {
            CompiledOp::Constant { node, .. } => *node,
            CompiledOp::AddFloat { node, .. } => *node,
            CompiledOp::MultiplyFloat { node, .. } => *node,
            CompiledOp::PassThrough { node, .. } => *node,
            CompiledOp::ConditionGate { node, .. } => *node,
        }
    }
}

/// Why a formula does not compile.
#[derive(Clone, Debug, PartialEq, Eq)]
pub enum CompileError {
    /// The graph has a cycle; the nodes that could not be ordered.
    Cycle(Vec<GraphNodeId>),
    MissingNode(GraphNodeId),
    MissingPort(PortRef),
    UnknownNodeType(String),
    /// A node lacks an input or output its operation reads or writes.
    InvalidArity(GraphNodeId),
    /// A constant node has no `value` in its configuration.
    MissingConstant(GraphNodeId),
    /// A surface input's default is not of the input's type.
    SurfaceTypeMismatch(SurfaceItemId),
    UnsupportedValueType(String),
    TooManyNodes,
    TooManySlots,
    StateLayoutOverflow,
}

/// A compiled formula: its operations in execution order, the initial
/// content of every slot, the slots of its surface, its state and whether
/// its results depend on time.
pub struct CompiledFormulaKernel {
    pub key: CompileKey,
    pub operations: Vec<CompiledOp>,
    pub slot_defaults: Vec<Value>,
    /// Slot of each surface input, by the input's identity bits.
    pub surface_inputs: BTreeMap<u128, ValueSlot>,
    /// Slot of each surface output, by the output's identity bits.
    pub surface_outputs: BTreeMap<u128, ValueSlot>,
    /// The slots that surface outputs read.
    pub output_slots: BTreeSet<u32>,
    pub state_layout: StateLayout,
    pub time_dependent: bool,
}

/// Every slot that `op` reads or writes is below `count`.
pub open spec fn op_slots_within(op: CompiledOp, count: nat) -> bool {
    match op {
        CompiledOp::Constant { output, .. } => output.0 < count,
        CompiledOp::AddFloat { left, right, output, .. } => left.0 < count && right.0 < count && output.0 < count,
        CompiledOp::MultiplyFloat { left, right, output, .. } => left.0 < count && right.0 < count && output.0
            < count,
        CompiledOp::PassThrough { input, output, .. } => input.0 < count && output.0 < count,
        CompiledOp::ConditionGate { condition, value, output, .. } => condition.0 < count && value.0 < count
            && output.0 < count,
    }
}

/// Every slot a kernel names is one of its slots, and its output slots are
/// the slots its surface outputs read.
pub open spec fn kernel_wf(kernel: CompiledFormulaKernel) -> bool {
    let count = kernel.slot_defaults@.len();
    &&& forall|i: int| 0 <= i < kernel.operations@.len() ==> op_slots_within(#[trigger] kernel.operations@[i], count)
    &&& forall|id: u128| #[trigger] kernel.surface_inputs@.contains_key(id) ==> kernel.surface_inputs@[id].0 < count
    &&& forall|id: u128| #[trigger] kernel.surface_outputs@.contains_key(id) ==> kernel.surface_outputs@[id].0 < count
    &&& forall|x: u32| kernel.output_slots@.contains(x) <==> exists|id: u128| #[trigger]
        kernel.surface_outputs@.contains_key(id) && kernel.surface_outputs@[id].0 == x
}

/// The key of a port in the slot table: its node's and its own identity bits.
pub open spec fn port_key(port: PortRef) -> (u128, u128) {
    (port.node.key(), port.port.0.0)
}

/// The initial value of a slot of the named type, for the types the
/// evaluator supports.
pub open spec fn type_default(value_type: Seq<char>) -> Option<ValueView> {
    if value_type == "bool"@ {
        Some(ValueView::Bool(false))
    } else if value_type == "integer"@ {
        Some(ValueView::Integer(0))
    } else if value_type == "float"@ {
        Some(ValueView::Float(0))
    } else if value_type == "string"@ {
        Some(ValueView::String(Seq::empty()))
    } else {
        None
    }
}

/// Slot defaults so far, and the slot of each port assigned so far.
pub type SlotTable = (Seq<ValueView>, Map<(u128, u128), ValueSlot>);

/// A new slot for a port of type `port.value_type`: the next slot, holding
/// the type's default.
pub open spec fn allocate(defaults: Seq<ValueView>, port: AlchemistPort) -> Result<(Seq<ValueView>, ValueSlot), CompileError> {
    if defaults.len() >= u32::MAX {
        Err(CompileError::TooManySlots)
    } else {
        match type_default(port.value_type@) {
            None => Err(CompileError::UnsupportedValueType(port.value_type)),
            Some(value) => Ok((defaults.push(value), ValueSlot(defaults.len() as u32))),
        }
    }
}

/// Gives each of `ports`, outputs of node `node`, a new slot.
pub open spec fn assign_output_ports(table: SlotTable, node: u128, ports: Seq<AlchemistPort>) -> Result<SlotTable, CompileError>
    decreases ports.len(),
{
    if ports.len() == 0 {
        Ok(table)
    } else {
        match assign_output_ports(table, node, ports.drop_last()) {
            Err(error) => Err(error),
            Ok(t) => match allocate(t.0, ports.last()) {
                Err(error) => Err(error),
                Ok((defaults, slot)) => Ok((defaults, t.1.insert((node, ports.last().id.0.0), slot))),
            },
        }
    }
}

/// Gives every output port of `nodes` a new slot, node by node.
pub open spec fn assign_outputs(table: SlotTable, nodes: Seq<GraphNode<AlchemistGraphDomain>>) -> Result<SlotTable, CompileError>
    decreases nodes.len(),
{
    if nodes.len() == 0 {
        Ok(table)
    } else {
        match assign_outputs(table, nodes.drop_last()) {
            Err(error) => Err(error),
            Ok(t) => assign_output_ports(t, nodes.last().id.key(), nodes.last().data.outputs@),
        }
    }
}

/// The source of the first of `edges` that ends at `target`.
pub open spec fn feeding_source(edges: Seq<GraphEdge<AlchemistGraphDomain>>, target: PortRef) -> Option<PortRef>
    decreases edges.len(),
{
    if edges.len() == 0 {
        None
    } else if edges[0].to == target {
        Some(edges[0].from)
    } else {
        feeding_source(edges.drop_first(), target)
    }
}

/// The edges into `node`, in increasing identity order.
pub open spec fn edges_into(s: GraphState<AlchemistGraphDomain>, node: u128) -> Seq<GraphEdge<AlchemistGraphDomain>> {
    sorted_keys(incoming_of(s.edges, node)).map_values(|e: u128| s.edges[e])
}

/// Gives each of `ports`, inputs of node `node`, the slot of the output
/// feeding it, or a new slot when nothing feeds it.
pub open spec fn assign_input_ports(
    table: SlotTable,
    edges: Seq<GraphEdge<AlchemistGraphDomain>>,
    node: GraphNodeId,
    ports: Seq<AlchemistPort>,
) -> Result<SlotTable, CompileError>
    decreases ports.len(),
{
    if ports.len() == 0 {
        Ok(table)
    } else {
        match assign_input_ports(table, edges, node, ports.drop_last()) {
            Err(error) => Err(error),
            Ok(t) => {
                let target = PortRef { node, port: ports.last().id };
                match feeding_source(edges, target) {
                    Some(source) => if t.1.contains_key(port_key(source)) {
                        Ok((t.0, t.1.insert(port_key(target), t.1[port_key(source)])))
                    } else {
                        Err(CompileError::MissingPort(source))
                    },
                    None => match allocate(t.0, ports.last()) {
                        Err(error) => Err(error),
                        Ok((defaults, slot)) => Ok((defaults, t.1.insert(port_key(target), slot))),
                    },
                }
            },
        }
    }
}

/// Assigns slots to every input port of `nodes`, node by node.
pub open spec fn assign_inputs(
    table: SlotTable,
    s: GraphState<AlchemistGraphDomain>,
    nodes: Seq<GraphNode<AlchemistGraphDomain>>,
) -> Result<SlotTable, CompileError>
    decreases nodes.len(),
{
    if nodes.len() == 0 {
        Ok(table)
    } else {
        match assign_inputs(table, s, nodes.drop_last()) {
            Err(error) => Err(error),
            Ok(t) => assign_input_ports(t, edges_into(s, nodes.last().id.key()), nodes.last().id, nodes.last().data.inputs@),
        }
    }
}

/// The nodes of `s` in increasing identity order.
pub open spec fn ordered_nodes(s: GraphState<AlchemistGraphDomain>) -> Seq<GraphNode<AlchemistGraphDomain>> {
    sorted_keys(s.nodes.dom()).map_values(|k: u128| s.nodes[k])
}

/// Binds each surface input to the slot of its target, whose default
/// becomes the input's default; the defaults after binding, and the slot of
/// each input.
pub open spec fn bind_surface_inputs(
    defaults: Seq<ValueView>,
    slots: Map<(u128, u128), ValueSlot>,
    inputs: Seq<SurfaceInput>,
) -> Result<(Seq<ValueView>, Map<u128, ValueSlot>), CompileError>
    decreases inputs.len(),
{
    if inputs.len() == 0 {
        Ok((defaults, Map::empty()))
    } else {
        match bind_surface_inputs(defaults, slots, inputs.drop_last()) {
            Err(error) => Err(error),
            Ok(bound) => {
                let input = inputs.last();
                if !slots.contains_key(port_key(input.target)) {
                    Err(CompileError::MissingPort(input.target))
                } else if value_type_name(input.default@) != input.value_type@ {
                    Err(CompileError::SurfaceTypeMismatch(input.id))
                } else {
                    let slot = slots[port_key(input.target)];
                    Ok((bound.0.update(slot.0 as int, input.default@), bound.1.insert(input.id.0.0, slot)))
                }
            },
        }
    }
}

/// Binds each surface output to the slot of its source.
pub open spec fn bind_surface_outputs(slots: Map<(u128, u128), ValueSlot>, outputs: Seq<SurfaceOutput>) -> Result<
    Map<u128, ValueSlot>,
    CompileError,
>
    decreases outputs.len(),
{
    if outputs.len() == 0 {
        Ok(Map::empty())
    } else {
        match bind_surface_outputs(slots, outputs.drop_last()) {
            Err(error) => Err(error),
            Ok(bound) => {
                let output = outputs.last();
                if !slots.contains_key(port_key(output.source)) {
                    Err(CompileError::MissingPort(output.source))
                } else {
                    Ok(bound.insert(output.id.0.0, slots[port_key(output.source)]))
                }
            },
        }
    }
}

/// The slot of port `index` of `ports`, ports of node `node`.
pub open spec fn port_slot(slots: Map<(u128, u128), ValueSlot>, node: GraphNodeId, ports: Seq<AlchemistPort>, index: int) -> Option<ValueSlot> {
    if 0 <= index < ports.len() && slots.contains_key((node.key(), ports[index].id.0.0)) {
        Some(slots[(node.key(), ports[index].id.0.0)])
    } else {
        None
    }
}

/// The value configured under `name`: the first entry with that name.
pub open spec fn config_value(config: Seq<(String, Value)>, name: Seq<char>) -> Option<Value>
    decreases config.len(),
{
    if config.len() == 0 {
        None
    } else if config[0].0@ == name {
        Some(config[0].1)
    } else {
        config_value(config.drop_first(), name)
    }
}

/// The operation of node `node_id`, executable node `exec`, performing
/// `operation` on the slots of its ports.
pub open spec fn operation_of(
    exec: ExecNodeId,
    node_id: GraphNodeId,
    authored: AlchemistNode,
    operation: BuiltinOperation,
    slots: Map<(u128, u128), ValueSlot>,
) -> Result<CompiledOp, CompileError> {
    let input = |index: int| port_slot(slots, node_id, authored.inputs@, index);
    let output = |index: int| port_slot(slots, node_id, authored.outputs@, index);
    let arity = CompileError::InvalidArity(node_id);
    match operation {
        BuiltinOperation::Constant => match config_value(authored.config@, "value"@) {
            None => Err(CompileError::MissingConstant(node_id)),
            Some(value) => match output(0) {
                None => Err(arity),
                Some(out) => Ok(CompiledOp::Constant { node: exec, value, output: out }),
            },
        },
        BuiltinOperation::AddFloat => match (input(0), input(1), output(0)) {
            (Some(left), Some(right), Some(out)) => Ok(CompiledOp::AddFloat { node: exec, left, right, output: out }),
            _ => Err(arity),
        },
        BuiltinOperation::MultiplyFloat => match (input(0), input(1), output(0)) {
            (Some(left), Some(right), Some(out)) => Ok(
                CompiledOp::MultiplyFloat { node: exec, left, right, output: out },
            ),
            _ => Err(arity),
        },
        BuiltinOperation::PassThrough => match (input(0), output(0)) {
            (Some(inp), Some(out)) => Ok(CompiledOp::PassThrough { node: exec, input: inp, output: out }),
            _ => Err(arity),
        },
        BuiltinOperation::ConditionGate => match (input(0), input(1), output(0)) {
            (Some(condition), Some(value), Some(out)) => Ok(
                CompiledOp::ConditionGate { node: exec, condition, value, output: out },
            ),
            _ => Err(arity),
        },
    }
}

/// The operations of the nodes of `order`, in that order, with the state
/// slots they need in total and whether any of them depends on time.
pub open spec fn operations_of(
    s: GraphState<AlchemistGraphDomain>,
    definitions: Seq<ANodeDefinition>,
    slots: Map<(u128, u128), ValueSlot>,
    order: Seq<GraphNodeId>,
) -> Result<(Seq<CompiledOp>, nat, bool), CompileError>
    decreases order.len(),
{
    if order.len() == 0 {
        Ok((Seq::empty(), 0, false))
    } else {
        match operations_of(s, definitions, slots, order.drop_last()) {
            Err(error) => Err(error),
            Ok((operations, state, time)) => {
                let index = order.len() - 1;
                let id = order.last();
                if !s.nodes.contains_key(id.key()) {
                    Err(CompileError::MissingNode(id))
                } else {
                    let node = s.nodes[id.key()];
                    match definition_named(definitions, node.data.node_type.0@) {
                        None => Err(CompileError::UnknownNodeType(node.data.node_type.0)),
                        Some(definition) => if state + definition.capabilities.state_slots > u32::MAX {
                            Err(CompileError::StateLayoutOverflow)
                        } else if index > u32::MAX {
                            Err(CompileError::TooManyNodes)
                        } else {
                            match operation_of(ExecNodeId(index as u32), id, node.data, definition.operation, slots) {
                                Err(error) => Err(error),
                                Ok(operation) => Ok(
                                    (
                                        operations.push(operation),
                                        (state + definition.capabilities.state_slots) as nat,
                                        time || definition.capabilities.time_dependent,
                                    ),
                                ),
                            }
                        },
                    }
                }
            },
        }
    }
}


/// The initial value of a slot of type `value_type`.
fn default_value(value_type: &String) -> (result: Result<Value, CompileError>)
    ensures
        match type_default(value_type@) {
            Some(view) => result matches Ok(value) && value@ == view,
            None => result == Err::<Value, CompileError>(CompileError::UnsupportedValueType(*value_type)),
        },
{
    proof {
        reveal_strlit("bool");
        reveal_strlit("integer");
        reveal_strlit("float");
        reveal_strlit("string");
    }
    if strings_equal(value_type.as_str(), "bool") {
        Ok(Value::Bool(false))
    } else if strings_equal(value_type.as_str(), "integer") {
        Ok(Value::Integer(0))
    } else if strings_equal(value_type.as_str(), "float") {
        Ok(Value::Float(0))
    } else if strings_equal(value_type.as_str(), "string") {
        Ok(Value::String(String::new()))
    } else {
        Err(CompileError::UnsupportedValueType(value_type.clone()))
    }
}

/// A new slot for `port`, holding the default of its type.
fn allocate_slot(defaults: &mut Vec<Value>, port: &AlchemistPort) -> (result: Result<ValueSlot, CompileError>)
    ensures
        match allocate(value_views(old(defaults)@), *port) {
            Ok((views, slot)) => result == Ok::<ValueSlot, CompileError>(slot) && value_views(final(defaults)@)
                == views,
            Err(error) => result == Err::<ValueSlot, CompileError>(error),
        },
{
    if defaults.len() >= 0xffff_ffff {
        return Err(CompileError::TooManySlots);
    }
    let slot = ValueSlot(defaults.len() as u32);
    let value = match default_value(&port.value_type) {
        Ok(value) => value,
        Err(error) => return Err(error),
    };
    defaults.push(value);
    assert(value_views(defaults@) =~= value_views(old(defaults)@).push(value@));
    Ok(slot)
}


/// Every slot of `slots` is a slot of `defaults`.
pub open spec fn slots_within(defaults: Seq<ValueView>, slots: Map<(u128, u128), ValueSlot>) -> bool {
    forall|k: (u128, u128)| #[trigger] slots.contains_key(k) ==> slots[k].0 < defaults.len()
}

proof fn lemma_output_ports_error(table: SlotTable, node: u128, ports: Seq<AlchemistPort>, k: int)
    requires
        0 <= k <= ports.len(),
        assign_output_ports(table, node, ports.take(k)) is Err,
    ensures
        assign_output_ports(table, node, ports) == assign_output_ports(table, node, ports.take(k)),
    decreases ports.len() - k,
{
    if k < ports.len() {
        assert(ports.take(k + 1).drop_last() =~= ports.take(k));
        lemma_output_ports_error(table, node, ports, k + 1);
    } else {
        assert(ports.take(k) =~= ports);
    }
}

proof fn lemma_outputs_error(table: SlotTable, nodes: Seq<GraphNode<AlchemistGraphDomain>>, k: int)
    requires
        0 <= k <= nodes.len(),
        assign_outputs(table, nodes.take(k)) is Err,
    ensures
        assign_outputs(table, nodes) == assign_outputs(table, nodes.take(k)),
    decreases nodes.len() - k,
{
    if k < nodes.len() {
        assert(nodes.take(k + 1).drop_last() =~= nodes.take(k));
        lemma_outputs_error(table, nodes, k + 1);
    } else {
        assert(nodes.take(k) =~= nodes);
    }
}

/// Gives every output port of the graph's nodes a new slot, node by node
/// in increasing identity order.
#[verifier::loop_isolation(false)]
fn assign_output_slots(
    graph: &GraphDocument<AlchemistGraphDomain>,
    defaults: &mut Vec<Value>,
    slots: &mut BTreeMap<(u128, u128), ValueSlot>,
) -> (result: Result<(), CompileError>)
    requires
        slots_within(value_views(old(defaults)@), old(slots)@),
    ensures
        match assign_outputs((value_views(old(defaults)@), old(slots)@), ordered_nodes(graph@)) {
            Ok(t) => result is Ok && t == (value_views(final(defaults)@), final(slots)@),
            Err(error) => result == Err::<(), CompileError>(error),
        },
        result is Ok ==> slots_within(value_views(final(defaults)@), final(slots)@),
{
    let nodes = graph.nodes();
    let ghost model = ordered_nodes(graph@);
    let ghost start: SlotTable = (value_views(defaults@), slots@);
    assert(model.take(0) =~= Seq::<GraphNode<AlchemistGraphDomain>>::empty());
    let mut i: usize = 0;
    while i < nodes.len()
        invariant
            i <= nodes@.len(),
            nodes@.len() == model.len(),
            forall|j: int| 0 <= j < nodes@.len() ==> *(#[trigger] nodes@[j]) == model[j],
            assign_outputs(start, model.take(i as int)) == Ok::<SlotTable, CompileError>((value_views(defaults@), slots@)),
            slots_within(value_views(defaults@), slots@),
        decreases nodes@.len() - i,
    {
        let node = nodes[i];
        assert(*node == model[i as int]);
        let ghost before: SlotTable = (value_views(defaults@), slots@);
        let ghost ports = node.data.outputs@;
        assert(ports.take(0) =~= Seq::<AlchemistPort>::empty());
        assert(model.take(i + 1).drop_last() =~= model.take(i as int));
        let mut j: usize = 0;
        while j < node.data.outputs.len()
            invariant
                j <= ports.len(),
                ports == node.data.outputs@,
                assign_output_ports(before, node.id.key(), ports.take(j as int)) == Ok::<SlotTable, CompileError>(
                    (value_views(defaults@), slots@),
                ),
                slots_within(value_views(defaults@), slots@),
            decreases ports.len() - j,
        {
            let port = &node.data.outputs[j];
            assert(ports.take(j + 1).drop_last() =~= ports.take(j as int));
            let ghost views = value_views(defaults@);
            match allocate_slot(defaults, port) {
                Ok(slot) => {
                    slots.insert((node.id.0.0, port.id.0.0), slot);
                },
                Err(error) => {
                    proof {
                        lemma_output_ports_error(before, node.id.key(), ports, j + 1);
                        lemma_outputs_error(start, model, i + 1);
                    }
                    return Err(error);
                },
            }
            j = j + 1;
        }
        assert(ports.take(ports.len() as int) =~= ports);
        i = i + 1;
    }
    assert(model.take(model.len() as int) =~= model);
    Ok(())
}


proof fn lemma_input_ports_error(
    table: SlotTable,
    edges: Seq<GraphEdge<AlchemistGraphDomain>>,
    node: GraphNodeId,
    ports: Seq<AlchemistPort>,
    k: int,
)
    requires
        0 <= k <= ports.len(),
        assign_input_ports(table, edges, node, ports.take(k)) is Err,
    ensures
        assign_input_ports(table, edges, node, ports) == assign_input_ports(table, edges, node, ports.take(k)),
    decreases ports.len() - k,
{
    if k < ports.len() {
        assert(ports.take(k + 1).drop_last() =~= ports.take(k));
        lemma_input_ports_error(table, edges, node, ports, k + 1);
    } else {
        assert(ports.take(k) =~= ports);
    }
}

proof fn lemma_inputs_error(
    table: SlotTable,
    s: GraphState<AlchemistGraphDomain>,
    nodes: Seq<GraphNode<AlchemistGraphDomain>>,
    k: int,
)
    requires
        0 <= k <= nodes.len(),
        assign_inputs(table, s, nodes.take(k)) is Err,
    ensures
        assign_inputs(table, s, nodes) == assign_inputs(table, s, nodes.take(k)),
    decreases nodes.len() - k,
{
    if k < nodes.len() {
        assert(nodes.take(k + 1).drop_last() =~= nodes.take(k));
        lemma_inputs_error(table, s, nodes, k + 1);
    } else {
        assert(nodes.take(k) =~= nodes);
    }
}

/// The source of the first of `edges` that ends at `target`.
fn first_feeding_source(
    edges: &Vec<&GraphEdge<AlchemistGraphDomain>>,
    target: PortRef,
    Ghost(model): Ghost<Seq<GraphEdge<AlchemistGraphDomain>>>,
) -> (source: Option<PortRef>)
    requires
        edges@.len() == model.len(),
        forall|i: int| 0 <= i < edges@.len() ==> *(#[trigger] edges@[i]) == model[i],
    ensures
        source == feeding_source(model, target),
{
    let mut i: usize = 0;
    assert(model.subrange(0, model.len() as int) =~= model);
    while i < edges.len()
        invariant
            i <= edges@.len(),
            edges@.len() == model.len(),
            forall|k: int| 0 <= k < edges@.len() ==> *(#[trigger] edges@[k]) == model[k],
            feeding_source(model, target) == feeding_source(model.subrange(i as int, model.len() as int), target),
        decreases edges@.len() - i,
    {
        let edge = edges[i];
        assert(*edge == model[i as int]);
        assert(model.subrange(i as int, model.len() as int).drop_first() =~= model.subrange(
            i + 1,
            model.len() as int,
        ));
        if edge.to == target {
            return Some(edge.from);
        }
        i = i + 1;
    }
    None
}

/// Gives every input port of the graph's nodes, node by node in increasing
/// identity order, the slot of the output feeding it, or a new slot.
#[verifier::loop_isolation(false)]
fn assign_input_slots(
    graph: &GraphDocument<AlchemistGraphDomain>,
    defaults: &mut Vec<Value>,
    slots: &mut BTreeMap<(u128, u128), ValueSlot>,
) -> (result: Result<(), CompileError>)
    requires
        graph.wf(),
        slots_within(value_views(old(defaults)@), old(slots)@),
    ensures
        match assign_inputs((value_views(old(defaults)@), old(slots)@), graph@, ordered_nodes(graph@)) {
            Ok(t) => result is Ok && t == (value_views(final(defaults)@), final(slots)@),
            Err(error) => result == Err::<(), CompileError>(error),
        },
        result is Ok ==> slots_within(value_views(final(defaults)@), final(slots)@),
{
    let nodes = graph.nodes();
    let ghost model = ordered_nodes(graph@);
    let ghost start: SlotTable = (value_views(defaults@), slots@);
    assert(model.take(0) =~= Seq::<GraphNode<AlchemistGraphDomain>>::empty());
    let mut i: usize = 0;
    while i < nodes.len()
        invariant
            i <= nodes@.len(),
            nodes@.len() == model.len(),
            forall|j: int| 0 <= j < nodes@.len() ==> *(#[trigger] nodes@[j]) == model[j],
            assign_inputs(start, graph@, model.take(i as int)) == Ok::<SlotTable, CompileError>(
                (value_views(defaults@), slots@),
            ),
            slots_within(value_views(defaults@), slots@),
        decreases nodes@.len() - i,
    {
        let node = nodes[i];
        assert(*node == model[i as int]);
        let edges = graph.incoming_edges(node.id);
        let ghost edge_model = edges_into(graph@, node.id.key());
        let ghost before: SlotTable = (value_views(defaults@), slots@);
        let ghost ports = node.data.inputs@;
        assert(ports.take(0) =~= Seq::<AlchemistPort>::empty());
        assert(model.take(i + 1).drop_last() =~= model.take(i as int));
        let mut j: usize = 0;
        while j < node.data.inputs.len()
            invariant
                j <= ports.len(),
                ports == node.data.inputs@,
                edges@.len() == edge_model.len(),
                forall|k: int| 0 <= k < edges@.len() ==> *(#[trigger] edges@[k]) == edge_model[k],
                assign_input_ports(before, edge_model, node.id, ports.take(j as int)) == Ok::<
                    SlotTable,
                    CompileError,
                >((value_views(defaults@), slots@)),
                slots_within(value_views(defaults@), slots@),
            decreases ports.len() - j,
        {
            let port = &node.data.inputs[j];
            assert(ports.take(j + 1).drop_last() =~= ports.take(j as int));
            let target = PortRef { node: node.id, port: port.id };
            match first_feeding_source(&edges, target, Ghost(edge_model)) {
                Some(source) => {
                    let found = match slots.get(&(source.node.0.0, source.port.0.0)) {
                        Some(slot) => Some(*slot),
                        None => None,
                    };
                    match found {
                        Some(slot) => {
                            slots.insert((node.id.0.0, port.id.0.0), slot);
                        },
                        None => {
                            proof {
                                lemma_input_ports_error(before, edge_model, node.id, ports, j + 1);
                                lemma_inputs_error(start, graph@, model, i + 1);
                            }
                            return Err(CompileError::MissingPort(source));
                        },
                    }
                },
                None => {
                    match allocate_slot(defaults, port) {
                        Ok(slot) => {
                            slots.insert((node.id.0.0, port.id.0.0), slot);
                        },
                        Err(error) => {
                            proof {
                                lemma_input_ports_error(before, edge_model, node.id, ports, j + 1);
                                lemma_inputs_error(start, graph@, model, i + 1);
                            }
                            return Err(error);
                        },
                    }
                },
            }
            j = j + 1;
        }
        assert(ports.take(ports.len() as int) =~= ports);
        i = i + 1;
    }
    assert(model.take(model.len() as int) =~= model);
    Ok(())
}


proof fn lemma_surface_inputs_error(
    defaults: Seq<ValueView>,
    slots: Map<(u128, u128), ValueSlot>,
    inputs: Seq<SurfaceInput>,
    k: int,
)
    requires
        0 <= k <= inputs.len(),
        bind_surface_inputs(defaults, slots, inputs.take(k)) is Err,
    ensures
        bind_surface_inputs(defaults, slots, inputs) == bind_surface_inputs(defaults, slots, inputs.take(k)),
    decreases inputs.len() - k,
{
    if k < inputs.len() {
        assert(inputs.take(k + 1).drop_last() =~= inputs.take(k));
        lemma_surface_inputs_error(defaults, slots, inputs, k + 1);
    } else {
        assert(inputs.take(k) =~= inputs);
    }
}

proof fn lemma_surface_outputs_error(slots: Map<(u128, u128), ValueSlot>, outputs: Seq<SurfaceOutput>, k: int)
    requires
        0 <= k <= outputs.len(),
        bind_surface_outputs(slots, outputs.take(k)) is Err,
    ensures
        bind_surface_outputs(slots, outputs) == bind_surface_outputs(slots, outputs.take(k)),
    decreases outputs.len() - k,
{
    if k < outputs.len() {
        assert(outputs.take(k + 1).drop_last() =~= outputs.take(k));
        lemma_surface_outputs_error(slots, outputs, k + 1);
    } else {
        assert(outputs.take(k) =~= outputs);
    }
}

/// Binds each surface input to the slot of its target and makes its default
/// the slot's default.
fn bind_input_slots(
    inputs: &Vec<SurfaceInput>,
    slots: &BTreeMap<(u128, u128), ValueSlot>,
    defaults: &mut Vec<Value>,
) -> (result: Result<BTreeMap<u128, ValueSlot>, CompileError>)
    requires
        slots_within(value_views(old(defaults)@), slots@),
    ensures
        match bind_surface_inputs(value_views(old(defaults)@), slots@, inputs@) {
            Ok((views, bound)) => result matches Ok(map) && map@ == bound && value_views(final(defaults)@) == views,
            Err(error) => result == Err::<BTreeMap<u128, ValueSlot>, CompileError>(error),
        },
        final(defaults)@.len() == old(defaults)@.len(),
        result matches Ok(map) ==> forall|k: u128| #[trigger] map@.contains_key(k) ==> map@[k].0 < final(defaults)@.len(),
{
    let ghost start = value_views(defaults@);
    let mut bound: BTreeMap<u128, ValueSlot> = BTreeMap::new();
    let mut i: usize = 0;
    assert(inputs@.take(0) =~= Seq::<SurfaceInput>::empty());
    while i < inputs.len()
        invariant
            i <= inputs@.len(),
            start == value_views(old(defaults)@),
            value_views(defaults@).len() == start.len(),
            defaults@.len() == old(defaults)@.len(),
            forall|k: u128| #[trigger] bound@.contains_key(k) ==> bound@[k].0 < defaults@.len(),
            slots_within(start, slots@),
            bind_surface_inputs(start, slots@, inputs@.take(i as int)) == Ok::<
                (Seq<ValueView>, Map<u128, ValueSlot>),
                CompileError,
            >((value_views(defaults@), bound@)),
        decreases inputs@.len() - i,
    {
        let input = &inputs[i];
        assert(inputs@.take(i + 1).drop_last() =~= inputs@.take(i as int));
        assert(inputs@.take(i + 1).last() == *input);
        let found = match slots.get(&(input.target.node.0.0, input.target.port.0.0)) {
            Some(slot) => Some(*slot),
            None => None,
        };
        let slot = match found {
            Some(slot) => slot,
            None => {
                proof {
                    assert(bind_surface_inputs(start, slots@, inputs@.take(i + 1)) == Err::<
                        (Seq<ValueView>, Map<u128, ValueSlot>),
                        CompileError,
                    >(CompileError::MissingPort(input.target)));
                    lemma_surface_inputs_error(start, slots@, inputs@, i + 1);
                }
                return Err(CompileError::MissingPort(input.target));
            },
        };
        if !strings_equal(input.default.type_id(), input.value_type.as_str()) {
            proof {
                assert(bind_surface_inputs(start, slots@, inputs@.take(i + 1)) == Err::<
                    (Seq<ValueView>, Map<u128, ValueSlot>),
                    CompileError,
                >(CompileError::SurfaceTypeMismatch(input.id)));
                lemma_surface_inputs_error(start, slots@, inputs@, i + 1);
            }
            return Err(CompileError::SurfaceTypeMismatch(input.id));
        }
        let ghost views = value_views(defaults@);
        defaults.set(slot.0 as usize, input.default.duplicate());
        assert(value_views(defaults@) =~= views.update(slot.0 as int, input.default@));
        bound.insert(input.id.0.0, slot);
        i = i + 1;
    }
    assert(inputs@.take(inputs@.len() as int) =~= inputs@);
    Ok(bound)
}

/// Binds each surface output to the slot of its source.
fn bind_output_slots(
    outputs: &Vec<SurfaceOutput>,
    slots: &BTreeMap<(u128, u128), ValueSlot>,
    Ghost(count): Ghost<nat>,
) -> (result: Result<BTreeMap<u128, ValueSlot>, CompileError>)
    requires
        forall|k: (u128, u128)| #[trigger] slots@.contains_key(k) ==> slots@[k].0 < count,
    ensures
        result matches Ok(map) ==> forall|k: u128| #[trigger] map@.contains_key(k) ==> map@[k].0 < count,
        match bind_surface_outputs(slots@, outputs@) {
            Ok(bound) => result matches Ok(map) && map@ == bound,
            Err(error) => result == Err::<BTreeMap<u128, ValueSlot>, CompileError>(error),
        },
{
    let mut bound: BTreeMap<u128, ValueSlot> = BTreeMap::new();
    let mut i: usize = 0;
    assert(outputs@.take(0) =~= Seq::<SurfaceOutput>::empty());
    while i < outputs.len()
        invariant
            i <= outputs@.len(),
            bind_surface_outputs(slots@, outputs@.take(i as int)) == Ok::<Map<u128, ValueSlot>, CompileError>(bound@),
            forall|k: (u128, u128)| #[trigger] slots@.contains_key(k) ==> slots@[k].0 < count,
            forall|k: u128| #[trigger] bound@.contains_key(k) ==> bound@[k].0 < count,
        decreases outputs@.len() - i,
    {
        let output = &outputs[i];
        assert(outputs@.take(i + 1).drop_last() =~= outputs@.take(i as int));
        assert(outputs@.take(i + 1).last() == *output);
        let found = match slots.get(&(output.source.node.0.0, output.source.port.0.0)) {
            Some(slot) => Some(*slot),
            None => None,
        };
        match found {
            Some(slot) => {
                bound.insert(output.id.0.0, slot);
            },
            None => {
                proof {
                    lemma_surface_outputs_error(slots@, outputs@, i + 1);
                }
                return Err(CompileError::MissingPort(output.source));
            },
        }
        i = i + 1;
    }
    assert(outputs@.take(outputs@.len() as int) =~= outputs@);
    Ok(bound)
}

/// The slot numbers that `bound` maps to.
fn slot_numbers(bound: &BTreeMap<u128, ValueSlot>) -> (numbers: BTreeSet<u32>)
    ensures
        forall|x: u32| numbers@.contains(x) <==> exists|id: u128| #[trigger]
            bound@.contains_key(id) && bound@[id].0 == x,
{
    let mut numbers: BTreeSet<u32> = BTreeSet::new();
    let ghost mut seen: Seq<ValueSlot> = Seq::empty();
    for slot in it: bound.values()
        invariant
            seen.len() == it.index(),
            forall|k: int| 0 <= k < it.index() ==> seen[k] == *it.seq()[k],
            forall|x: u32| numbers@.contains(x) <==> exists|k: int| 0 <= k < seen.len() && (#[trigger] seen[k]).0 == x,
    {
        let ghost before = seen;
        numbers.insert(slot.0);
        proof {
            seen = seen.push(*slot);
            assert(seen[seen.len() - 1].0 == slot.0);
            assert forall|x: u32| numbers@.contains(x) implies exists|k: int|
                0 <= k < seen.len() && (#[trigger] seen[k]).0 == x by {
                if x != slot.0 {
                    let k = choose|k: int| 0 <= k < before.len() && (#[trigger] before[k]).0 == x;
                    assert(seen[k] == before[k]);
                }
            }
            assert forall|x: u32| (exists|k: int| 0 <= k < seen.len() && (#[trigger] seen[k]).0 == x) implies numbers@.contains(x) by {
                let k = choose|k: int| 0 <= k < seen.len() && (#[trigger] seen[k]).0 == x;
                if k < before.len() {
                    assert(before[k] == seen[k]);
                }
            }
        }
    }
    proof {
        let all = spec_values_iter(bound).remaining();
        assert(all.unref().to_set() == bound@.values());
        assert(seen =~= all.unref());
        assert forall|x: u32| numbers@.contains(x) implies exists|id: u128| #[trigger]
            bound@.contains_key(id) && bound@[id].0 == x by {
            let k = choose|k: int| 0 <= k < seen.len() && (#[trigger] seen[k]).0 == x;
            assert(seen.to_set().contains(seen[k]));
            assert(bound@.values().contains(seen[k]));
        }
        assert forall|x: u32| (exists|id: u128| #[trigger] bound@.contains_key(id) && bound@[id].0 == x) implies numbers@.contains(x) by {
            let id = choose|id: u128| #[trigger] bound@.contains_key(id) && bound@[id].0 == x;
            assert(bound@.values().contains(bound@[id]));
            assert(seen.to_set().contains(bound@[id]));
            let k = choose|k: int| 0 <= k < seen.len() && seen[k] == bound@[id];
            assert(seen[k].0 == x);
        }
    }
    numbers
}


/// The slot of port `index` of `ports`, ports of node `node`.
fn slot_of_port(
    slots: &BTreeMap<(u128, u128), ValueSlot>,
    node: GraphNodeId,
    ports: &Vec<AlchemistPort>,
    index: usize,
) -> (slot: Option<ValueSlot>)
    ensures
        slot == port_slot(slots@, node, ports@, index as int),
{
    if index >= ports.len() {
        return None;
    }
    match slots.get(&(node.0.0, ports[index].id.0.0)) {
        Some(slot) => Some(*slot),
        None => None,
    }
}

/// The value configured under `name`.
fn configured_value(config: &Vec<(String, Value)>, name: &str) -> (value: Option<Value>)
    ensures
        value == config_value(config@, name@),
{
    let mut i: usize = 0;
    assert(config@.subrange(0, config@.len() as int) =~= config@);
    while i < config.len()
        invariant
            i <= config@.len(),
            config_value(config@, name@) == config_value(config@.subrange(i as int, config@.len() as int), name@),
        decreases config@.len() - i,
    {
        assert(config@.subrange(i as int, config@.len() as int).drop_first() =~= config@.subrange(
            i + 1,
            config@.len() as int,
        ));
        if strings_equal(config[i].0.as_str(), name) {
            return Some(config[i].1.duplicate());
        }
        i = i + 1;
    }
    None
}

/// The operation of node `node_id`, executable node `exec`.
fn compile_operation(
    exec: ExecNodeId,
    node_id: GraphNodeId,
    authored: &AlchemistNode,
    operation: BuiltinOperation,
    slots: &BTreeMap<(u128, u128), ValueSlot>,
) -> (result: Result<CompiledOp, CompileError>)
    ensures
        result == operation_of(exec, node_id, *authored, operation, slots@),
{
    proof {
        reveal_strlit("value");
    }
    let arity = CompileError::InvalidArity(node_id);
    match operation {
        BuiltinOperation::Constant => {
            let value = match configured_value(&authored.config, "value") {
                Some(value) => value,
                None => return Err(CompileError::MissingConstant(node_id)),
            };
            match slot_of_port(slots, node_id, &authored.outputs, 0) {
                Some(output) => Ok(CompiledOp::Constant { node: exec, value, output }),
                None => Err(arity),
            }
        },
        BuiltinOperation::AddFloat => {
            let left = slot_of_port(slots, node_id, &authored.inputs, 0);
            let right = slot_of_port(slots, node_id, &authored.inputs, 1);
            let output = slot_of_port(slots, node_id, &authored.outputs, 0);
            match (left, right, output) {
                (Some(left), Some(right), Some(output)) => Ok(CompiledOp::AddFloat { node: exec, left, right, output }),
                _ => Err(arity),
            }
        },
        BuiltinOperation::MultiplyFloat => {
            let left = slot_of_port(slots, node_id, &authored.inputs, 0);
            let right = slot_of_port(slots, node_id, &authored.inputs, 1);
            let output = slot_of_port(slots, node_id, &authored.outputs, 0);
            match (left, right, output) {
                (Some(left), Some(right), Some(output)) => Ok(
                    CompiledOp::MultiplyFloat { node: exec, left, right, output },
                ),
                _ => Err(arity),
            }
        },
        BuiltinOperation::PassThrough => {
            let input = slot_of_port(slots, node_id, &authored.inputs, 0);
            let output = slot_of_port(slots, node_id, &authored.outputs, 0);
            match (input, output) {
                (Some(input), Some(output)) => Ok(CompiledOp::PassThrough { node: exec, input, output }),
                _ => Err(arity),
            }
        },
        BuiltinOperation::ConditionGate => {
            let condition = slot_of_port(slots, node_id, &authored.inputs, 0);
            let value = slot_of_port(slots, node_id, &authored.inputs, 1);
            let output = slot_of_port(slots, node_id, &authored.outputs, 0);
            match (condition, value, output) {
                (Some(condition), Some(value), Some(output)) => Ok(
                    CompiledOp::ConditionGate { node: exec, condition, value, output },
                ),
                _ => Err(arity),
            }
        },
    }
}

proof fn lemma_operations_error(
    s: GraphState<AlchemistGraphDomain>,
    definitions: Seq<ANodeDefinition>,
    slots: Map<(u128, u128), ValueSlot>,
    order: Seq<GraphNodeId>,
    k: int,
)
    requires
        0 <= k <= order.len(),
        operations_of(s, definitions, slots, order.take(k)) is Err,
    ensures
        operations_of(s, definitions, slots, order) == operations_of(s, definitions, slots, order.take(k)),
    decreases order.len() - k,
{
    if k < order.len() {
        assert(order.take(k + 1).drop_last() =~= order.take(k));
        lemma_operations_error(s, definitions, slots, order, k + 1);
    } else {
        assert(order.take(k) =~= order);
    }
}

/// The operations of the nodes of `order`, in that order, with the state
/// slots they need and whether any depends on time.
#[verifier::loop_isolation(false)]
fn compile_operations(
    graph: &GraphDocument<AlchemistGraphDomain>,
    registry: &ANodeRegistry,
    slots: &BTreeMap<(u128, u128), ValueSlot>,
    order: &Vec<GraphNodeId>,
    Ghost(count): Ghost<nat>,
) -> (result: Result<(Vec<CompiledOp>, u32, bool), CompileError>)
    requires
        forall|k: (u128, u128)| #[trigger] slots@.contains_key(k) ==> slots@[k].0 < count,
    ensures
        result matches Ok((ops, _, _)) ==> forall|i: int| 0 <= i < ops@.len() ==> op_slots_within(
            #[trigger] ops@[i],
            count,
        ),
        match operations_of(graph@, registry.spec_definitions(), slots@, order@) {
            Ok((operations, state, time)) => result matches Ok((ops, st, t)) && ops@ == operations && st == state
                && t == time,
            Err(error) => result == Err::<(Vec<CompiledOp>, u32, bool), CompileError>(error),
        },
{
    let ghost definitions = registry.spec_definitions();
    let mut operations: Vec<CompiledOp> = Vec::new();
    let mut state_slots: u32 = 0;
    let mut time_dependent = false;
    let mut index: usize = 0;
    assert(order@.take(0) =~= Seq::<GraphNodeId>::empty());
    while index < order.len()
        invariant
            index <= order@.len(),
            operations_of(graph@, definitions, slots@, order@.take(index as int)) == Ok::<
                (Seq<CompiledOp>, nat, bool),
                CompileError,
            >((operations@, state_slots as nat, time_dependent)),
            forall|i: int| 0 <= i < operations@.len() ==> op_slots_within(#[trigger] operations@[i], count),
        decreases order@.len() - index,
    {
        let id = order[index];
        assert(order@.take(index + 1).drop_last() =~= order@.take(index as int));
        assert(order@.take(index + 1).last() == id);
        let node = match graph.node(id) {
            Some(node) => node,
            None => {
                proof {
                    lemma_operations_error(graph@, definitions, slots@, order@, index + 1);
                }
                return Err(CompileError::MissingNode(id));
            },
        };
        let definition = match registry.get(&node.data.node_type) {
            Some(definition) => definition,
            None => {
                proof {
                    lemma_operations_error(graph@, definitions, slots@, order@, index + 1);
                }
                return Err(CompileError::UnknownNodeType(node.data.node_type.0.clone()));
            },
        };
        let added = state_slots.checked_add(definition.capabilities.state_slots as u32);
        let next_state = match added {
            Some(next_state) => next_state,
            None => {
                proof {
                    lemma_operations_error(graph@, definitions, slots@, order@, index + 1);
                }
                return Err(CompileError::StateLayoutOverflow);
            },
        };
        if index > 0xffff_ffff {
            proof {
                lemma_operations_error(graph@, definitions, slots@, order@, index + 1);
            }
            return Err(CompileError::TooManyNodes);
        }
        let exec = ExecNodeId(index as u32);
        match compile_operation(exec, id, &node.data, definition.operation, slots) {
            Ok(operation) => {
                assert(op_slots_within(operation, count));
                operations.push(operation);
            },
            Err(error) => {
                proof {
                    lemma_operations_error(graph@, definitions, slots@, order@, index + 1);
                }
                return Err(error);
            },
        }
        state_slots = next_state;
        time_dependent = time_dependent || definition.capabilities.time_dependent;
        index = index + 1;
    }
    assert(order@.take(order@.len() as int) =~= order@);
    Ok((operations, state_slots, time_dependent))
}


/// The abstract content of a compiled kernel.
pub struct KernelModel {
    pub key: CompileKey,
    pub operations: Seq<CompiledOp>,
    pub slot_defaults: Seq<ValueView>,
    pub surface_inputs: Map<u128, ValueSlot>,
    pub surface_outputs: Map<u128, ValueSlot>,
    pub state_slots: nat,
    pub time_dependent: bool,
}

impl View for CompiledFormulaKernel {
    type V = KernelModel;

    open spec fn view(&self) -> KernelModel {
        KernelModel {
            key: self.key,
            operations: self.operations@,
            slot_defaults: value_views(self.slot_defaults@),
            surface_inputs: self.surface_inputs@,
            surface_outputs: self.surface_outputs@,
            state_slots: self.state_layout.slots as nat,
            time_dependent: self.time_dependent,
        }
    }
}

/// The kernel of the formula with identity `formula`, graph `s` and surface
/// `inputs` and `outputs`, compiled against `definitions` at
/// `registry_revision`, its nodes executing in `order`: every output port
/// gets a new slot (nodes in increasing identity order, ports in order);
/// then every input port gets the slot of the output that the first edge
/// into it comes from, or a new slot; surface inputs and outputs are bound
/// to the slots of their ports, a surface input's default becoming its
/// slot's default; each node of `order` becomes one operation.
pub open spec fn kernel_of(
    formula: FormulaId,
    s: GraphState<AlchemistGraphDomain>,
    inputs: Seq<SurfaceInput>,
    outputs: Seq<SurfaceOutput>,
    definitions: Seq<ANodeDefinition>,
    registry_revision: Revision,
    order: Seq<GraphNodeId>,
) -> Result<KernelModel, CompileError> {
    let nodes = ordered_nodes(s);
    match assign_outputs((Seq::empty(), Map::empty()), nodes) {
        Err(error) => Err(error),
        Ok(with_outputs) => match assign_inputs(with_outputs, s, nodes) {
            Err(error) => Err(error),
            Ok(table) => match bind_surface_inputs(table.0, table.1, inputs) {
                Err(error) => Err(error),
                Ok((slot_defaults, surface_inputs)) => match bind_surface_outputs(table.1, outputs) {
                    Err(error) => Err(error),
                    Ok(surface_outputs) => match operations_of(s, definitions, table.1, order) {
                        Err(error) => Err(error),
                        Ok((operations, state_slots, time_dependent)) => Ok(
                            KernelModel {
                                key: CompileKey { formula, graph_revision: s.revision, registry_revision },
                                operations,
                                slot_defaults,
                                surface_inputs,
                                surface_outputs,
                                state_slots,
                                time_dependent,
                            },
                        ),
                    },
                },
            },
        },
    }
}

/// `result` reports a cycle of `s`: the nodes left over when ordering
/// stopped.
pub open spec fn cycle_reported(s: GraphState<AlchemistGraphDomain>, result: Result<CompiledFormulaKernel, CompileError>) -> bool {
    match result {
        Err(CompileError::Cycle(remaining)) => exists|placed: Seq<u128>|
            #[trigger] stopped_by_cycle(s, placed, node_keys(remaining@)),
        _ => false,
    }
}

/// What compiling `formula` against `registry` gives: a cycle report when
/// the graph has a cycle; otherwise the kernel of its nodes in their stable
/// topological order (see `kernel_of`), which is well formed.
pub open spec fn compile_outcome(
    registry: ANodeRegistry,
    formula: AlchemistFormula,
    result: Result<CompiledFormulaKernel, CompileError>,
) -> bool {
    &&& cycle_reported(formula.graph@, result) || exists|order: Seq<GraphNodeId>|
        {
            &&& stable_prefix(formula.graph@, node_keys(order))
            &&& node_keys(order).to_set() == formula.graph@.nodes.dom()
            &&& match kernel_of(
                formula.id,
                formula.graph@,
                formula.surface.inputs@,
                formula.surface.outputs@,
                registry.spec_definitions(),
                registry.spec_revision(),
                order,
            ) {
                Ok(model) => result matches Ok(kernel) && kernel@ == model,
                Err(error) => result == Err::<CompiledFormulaKernel, CompileError>(error),
            }
        }
    &&& result matches Ok(kernel) ==> kernel_wf(kernel)
}

/// Compiles formulas against a registry of node types.
pub struct FormulaCompiler<'a> {
    registry: &'a ANodeRegistry,
}

impl<'a> FormulaCompiler<'a> {
    pub closed spec fn spec_registry(&self) -> ANodeRegistry {
        *self.registry
    }

    pub fn new(registry: &'a ANodeRegistry) -> (compiler: Self)
        ensures
            compiler.spec_registry() == *registry,
    {
        FormulaCompiler { registry }
    }

    /// Compiles `formula`, as `compile_outcome` states.
    pub fn compile(&self, formula: &AlchemistFormula) -> (result: Result<CompiledFormulaKernel, CompileError>)
        requires
            formula.graph.wf(),
        ensures
            compile_outcome(self.spec_registry(), *formula, result),
    {
        let order = match stable_topological_order(&formula.graph) {
            Ok(order) => order,
            Err(cycle) => {
                let remaining = cycle.remaining;
                let result: Result<CompiledFormulaKernel, CompileError> = Err(CompileError::Cycle(remaining));
                assert(result matches Err(CompileError::Cycle(r)) && r@ == remaining@);
                assert(cycle_reported(formula.graph@, result));
                return result;
            },
        };
        let key = CompileKey {
            formula: formula.id,
            graph_revision: formula.graph.revision(),
            registry_revision: self.registry.revision(),
        };
        let mut defaults: Vec<Value> = Vec::new();
        let mut slots: BTreeMap<(u128, u128), ValueSlot> = BTreeMap::new();
        assert(value_views(defaults@) =~= Seq::<ValueView>::empty());
        assert(slots@ =~= Map::<(u128, u128), ValueSlot>::empty());
        match assign_output_slots(&formula.graph, &mut defaults, &mut slots) {
            Ok(()) => {},
            Err(error) => return Err(error),
        }
        match assign_input_slots(&formula.graph, &mut defaults, &mut slots) {
            Ok(()) => {},
            Err(error) => return Err(error),
        }
        let surface_inputs = match bind_input_slots(&formula.surface.inputs, &slots, &mut defaults) {
            Ok(bound) => bound,
            Err(error) => return Err(error),
        };
        let surface_outputs = match bind_output_slots(&formula.surface.outputs, &slots, Ghost(defaults@.len())) {
            Ok(bound) => bound,
            Err(error) => return Err(error),
        };
        let (operations, state_slots, time_dependent) = match compile_operations(
            &formula.graph,
            self.registry,
            &slots,
            &order,
            Ghost(defaults@.len()),
        ) {
            Ok(compiled) => compiled,
            Err(error) => return Err(error),
        };
        let output_slots = slot_numbers(&surface_outputs);
        let ghost so = surface_outputs@;
        let ghost os = output_slots@;
        assert(forall|x: u32| os.contains(x) <==> exists|id: u128| #[trigger] so.contains_key(id) && so[id].0 == x);
        let kernel = CompiledFormulaKernel {
            key,
            operations,
            slot_defaults: defaults,
            surface_inputs,
            surface_outputs,
            output_slots,
            state_layout: StateLayout { slots: state_slots },
            time_dependent,
        };
        assert(kernel.surface_outputs@ == so);
        assert(kernel.output_slots@ == os);
        assert(forall|x: u32| kernel.output_slots@.contains(x) <==> exists|id: u128|
            #[trigger] kernel.surface_outputs@.contains_key(id) && kernel.surface_outputs@[id].0 == x);
        assert(kernel_wf(kernel));
        Ok(kernel)
    }
}


/// Compiled kernels shared by every user of a formula at a graph and
/// registry revision, with the number of compilations performed.
pub struct FormulaCompileCache {
    kernels: BTreeMap<(u128, u64, u64), Arc<CompiledFormulaKernel>>,
    compilations: usize,
}

/// What asking the cache `before` for the kernel of `formula` against
/// `registry` gives: the cached kernel, with nothing changed, when its key
/// is cached; otherwise the outcome of compiling it, a kernel being cached
/// and counted (the count wraps).
pub open spec fn cache_outcome(
    before: FormulaCompileCache,
    after: FormulaCompileCache,
    formula: AlchemistFormula,
    registry: ANodeRegistry,
    result: Result<Arc<CompiledFormulaKernel>, CompileError>,
) -> bool {
    let key = (formula.id.0.0, formula.graph@.revision.0, registry.spec_revision().0);
    if before.spec_kernels().contains_key(key) {
        &&& result == Ok::<Arc<CompiledFormulaKernel>, CompileError>(before.spec_kernels()[key])
        &&& after.spec_kernels() == before.spec_kernels()
        &&& after.spec_compilations() == before.spec_compilations()
    } else {
        match result {
            Ok(kernel) => {
                &&& compile_outcome(registry, formula, Ok(*kernel))
                &&& after.spec_kernels() == before.spec_kernels().insert(key, kernel)
                &&& after.spec_compilations() == if before.spec_compilations() == usize::MAX {
                    0
                } else {
                    (before.spec_compilations() + 1) as usize
                }
            },
            Err(error) => {
                &&& compile_outcome(registry, formula, Err(error))
                &&& after.spec_kernels() == before.spec_kernels()
                &&& after.spec_compilations() == before.spec_compilations()
            },
        }
    }
}

/// Once a formula compiled through the cache, asking again for it against
/// the same registry gives the same kernel and compiles nothing.
pub proof fn lemma_cache_shares_kernels(
    start: FormulaCompileCache,
    first: FormulaCompileCache,
    second: FormulaCompileCache,
    formula: AlchemistFormula,
    registry: ANodeRegistry,
    kernel: Arc<CompiledFormulaKernel>,
    again: Result<Arc<CompiledFormulaKernel>, CompileError>,
)
    requires
        cache_outcome(start, first, formula, registry, Ok(kernel)),
        cache_outcome(first, second, formula, registry, again),
    ensures
        again == Ok::<Arc<CompiledFormulaKernel>, CompileError>(kernel),
        second.spec_compilations() == first.spec_compilations(),
        second.spec_kernels() == first.spec_kernels(),
{
}

impl FormulaCompileCache {
    /// Every cached kernel is well formed.
    pub closed spec fn wf(&self) -> bool {
        forall|key: (u128, u64, u64)| #[trigger] self.kernels@.contains_key(key) ==> kernel_wf(*self.kernels@[key])
    }

    pub closed spec fn spec_kernels(&self) -> Map<(u128, u64, u64), Arc<CompiledFormulaKernel>> {
        self.kernels@
    }

    pub closed spec fn spec_compilations(&self) -> usize {
        self.compilations
    }

    /// The kernel of `formula` at its graph revision and the registry's
    /// revision: the cached one when there is one, else a newly compiled
    /// one, which is then cached and counted (the count wraps).
    pub fn compile(&mut self, formula: &AlchemistFormula, registry: &ANodeRegistry) -> (result: Result<
        Arc<CompiledFormulaKernel>,
        CompileError,
    >)
        requires
            old(self).wf(),
            formula.graph.wf(),
        ensures
            final(self).wf(),
            cache_outcome(*old(self), *final(self), *formula, *registry, result),
            result matches Ok(kernel) ==> kernel_wf(*kernel),
    {
        let key = (formula.id.0.0, formula.graph.revision().0, registry.revision().0);
        match self.kernels.get(&key) {
            Some(kernel) => {
                return Ok(Arc::clone(kernel));
            },
            None => {},
        }
        let kernel = match FormulaCompiler::new(registry).compile(formula) {
            Ok(kernel) => Arc::new(kernel),
            Err(error) => return Err(error),
        };
        self.kernels.insert(key, Arc::clone(&kernel));
        self.compilations = self.compilations.wrapping_add(1);
        Ok(kernel)
    }

    /// The number of compilations performed.
    pub fn compilation_count(&self) -> (count: usize)
        ensures
            count == self.spec_compilations(),
    {
        self.compilations
    }
}

impl Default for FormulaCompileCache {
    fn default() -> (cache: Self)
        ensures
            cache.wf(),
            cache.spec_kernels() == Map::<(u128, u64, u64), Arc<CompiledFormulaKernel>>::empty(),
            cache.spec_compilations() == 0,
    {
        FormulaCompileCache { kernels: BTreeMap::new(), compilations: 0 }
    }
}

} // verus!
