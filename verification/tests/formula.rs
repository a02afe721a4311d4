use std::collections::BTreeSet;

use std::sync::Arc;

use golden::alchemist::builder::{
    build_single_node_formula, SingleNodeFormulaSpec, SingleNodeInputSpec, SingleNodeOutputSpec,
};
use golden::alchemist::codec::{FormulaCodecError, FormulaFileV1, FORMULA_FILE_VERSION};
use golden::alchemist::compiler::{CompileError, CompiledOp, FormulaCompileCache, FormulaCompiler};
use golden::alchemist::runtime::{evaluate_batch, FloatOperation, FormulaInstance, FormulaRuntimeError};
use golden::alchemist::formula::{
    AlchemistFormula, FormulaDefaults, FormulaMetadata, FormulaSurface, SurfaceInput, SurfaceOutput,
};
use golden::alchemist::{
    ANodeRegistry, ANodeTypeId, AlchemistGraphData, AlchemistGraphDomain, AlchemistNode, AlchemistPort,
    CompileKey, ConversionPolicy, EvaluationOptions, FormulaEdgeV1, ExecNodeId, FormulaId, FormulaSchema, SurfaceItemId, ValueSlot,
};
use golden::graph::document::{GraphDocument, GraphEdge, GraphNode};
use golden::graph::domain::PortRef;
use golden::graph::ids::{GraphEdgeId, GraphId, GraphNodeId, GraphPortId};
use golden::graph::presentation::{FiniteCoordinate, GraphComment, GraphGroup, NodePresentation, Point, Size, ViewportBookmark};
use golden::graph::transaction::{GraphOperation, GraphTransaction};
use golden::model::{EntityId, Revision};
use golden::values::Value;

fn float(value: f64) -> Value {
    Value::Float(value.to_bits())
}

fn port(id: u128, name: &str, value_type: &str) -> AlchemistPort {
    AlchemistPort { id: GraphPortId(EntityId(id)), name: name.into(), value_type: value_type.into() }
}

fn node_id(id: u128) -> GraphNodeId {
    GraphNodeId(EntityId(id))
}

fn reference(node: u128, port: u128) -> PortRef {
    PortRef { node: node_id(node), port: GraphPortId(EntityId(port)) }
}

fn node(id: u128, node_type: &str, inputs: Vec<AlchemistPort>, outputs: Vec<AlchemistPort>) -> GraphOperation<AlchemistGraphDomain> {
    GraphOperation::InsertNode {
        node: GraphNode {
            id: node_id(id),
            data: AlchemistNode { node_type: ANodeTypeId(node_type.into()), inputs, outputs, config: Vec::new() },
        },
        presentation: None,
    }
}

fn connect(id: u128, from: PortRef, to: PortRef) -> GraphOperation<AlchemistGraphDomain> {
    GraphOperation::Connect {
        edge: GraphEdge { id: GraphEdgeId(EntityId(id)), from, to, data: ConversionPolicy::Exact },
    }
}

fn formula(operations: Vec<GraphOperation<AlchemistGraphDomain>>, surface: FormulaSurface) -> AlchemistFormula {
    let mut graph = GraphDocument::new(GraphId::new(), AlchemistGraphDomain, AlchemistGraphData { name: "f".into() });
    let mut transaction = GraphTransaction::new(Revision::new(0));
    for operation in operations {
        transaction.push(operation);
    }
    graph.apply(transaction).unwrap();
    AlchemistFormula {
        id: FormulaId::new(),
        schema: FormulaSchema { version: 1 },
        graph,
        properties: Vec::new(),
        surface,
        managed_regions: Vec::new(),
        metadata: FormulaMetadata { name: "f".into(), description: String::new(), tags: Vec::new() },
        defaults: FormulaDefaults::default(),
    }
}

struct AddFixture {
    formula: AlchemistFormula,
    left: SurfaceItemId,
    right: SurfaceItemId,
    result: SurfaceItemId,
}

fn add_fixture() -> AddFixture {
    let left = SurfaceItemId(EntityId(101));
    let right = SurfaceItemId(EntityId(102));
    let result = SurfaceItemId(EntityId(103));
    let surface = FormulaSurface {
        inputs: vec![
            SurfaceInput {
                id: left,
                label: "Left".into(),
                target: reference(1, 11),
                value_type: "float".into(),
                default: float(0.0),
            },
            SurfaceInput {
                id: right,
                label: "Right".into(),
                target: reference(1, 12),
                value_type: "float".into(),
                default: float(1.5),
            },
        ],
        outputs: vec![SurfaceOutput {
            id: result,
            label: "Result".into(),
            source: reference(1, 13),
            value_type: "float".into(),
        }],
    };
    let operations = vec![node(
        1,
        "add_float",
        vec![port(11, "left", "float"), port(12, "right", "float")],
        vec![port(13, "result", "float")],
    )];
    AddFixture { formula: formula(operations, surface), left, right, result }
}

#[test]
fn an_add_formula_compiles_to_one_operation_over_three_slots() {
    let fixture = add_fixture();
    let registry = ANodeRegistry::with_builtins();
    let kernel = FormulaCompiler::new(&registry).compile(&fixture.formula).unwrap();
    assert_eq!(
        kernel.key,
        CompileKey { formula: fixture.formula.id, graph_revision: Revision::new(1), registry_revision: Revision::new(1) }
    );
    assert_eq!(
        kernel.operations,
        vec![CompiledOp::AddFloat {
            node: ExecNodeId(0),
            left: ValueSlot(1),
            right: ValueSlot(2),
            output: ValueSlot(0),
        }]
    );
    assert_eq!(kernel.slot_defaults, vec![float(0.0), float(0.0), float(1.5)]);
    assert_eq!(kernel.surface_inputs.get(&fixture.left.0.0), Some(&ValueSlot(1)));
    assert_eq!(kernel.surface_inputs.get(&fixture.right.0.0), Some(&ValueSlot(2)));
    assert_eq!(kernel.surface_outputs.get(&fixture.result.0.0), Some(&ValueSlot(0)));
    assert_eq!(kernel.output_slots, BTreeSet::from([0u32]));
    assert_eq!(kernel.state_layout.slots, 0);
    assert!(!kernel.time_dependent);
    assert_eq!(kernel.operations[0].output(), ValueSlot(0));
    assert_eq!(kernel.operations[0].node(), ExecNodeId(0));
}

#[test]
fn connected_inputs_share_the_slot_of_their_source_and_run_after_it() {
    let mut constant = node(5, "constant", vec![], vec![port(51, "out", "integer")]);
    if let GraphOperation::InsertNode { node, .. } = &mut constant {
        node.data.config.push(("value".into(), Value::Integer(7)));
    }
    let operations = vec![
        node(2, "pass_through", vec![port(21, "in", "integer")], vec![port(22, "out", "integer")]),
        constant,
        connect(9, reference(5, 51), reference(2, 21)),
    ];
    let formula = formula(operations, FormulaSurface::default());
    let registry = ANodeRegistry::with_builtins();
    let kernel = FormulaCompiler::new(&registry).compile(&formula).unwrap();
    // outputs first, node 2 before node 5: slot 0 is node 2's output, slot 1
    // node 5's output; node 2's input reads slot 1
    assert_eq!(kernel.slot_defaults, vec![Value::Integer(0), Value::Integer(0)]);
    assert_eq!(
        kernel.operations,
        vec![
            CompiledOp::Constant { node: ExecNodeId(0), value: Value::Integer(7), output: ValueSlot(1) },
            CompiledOp::PassThrough { node: ExecNodeId(1), input: ValueSlot(1), output: ValueSlot(0) },
        ]
    );
    assert!(kernel.output_slots.is_empty());
}

#[test]
fn compile_errors_name_what_is_wrong() {
    let registry = ANodeRegistry::with_builtins();
    let compiler = FormulaCompiler::new(&registry);

    let unknown = formula(vec![node(1, "nope", vec![], vec![])], FormulaSurface::default());
    assert_eq!(compiler.compile(&unknown).err(), Some(CompileError::UnknownNodeType("nope".into())));

    let constant = formula(vec![node(1, "constant", vec![], vec![port(2, "out", "bool")])], FormulaSurface::default());
    assert_eq!(compiler.compile(&constant).err(), Some(CompileError::MissingConstant(node_id(1))));

    let unsupported = formula(vec![node(1, "pass_through", vec![], vec![port(2, "out", "vec3")])], FormulaSurface::default());
    assert_eq!(compiler.compile(&unsupported).err(), Some(CompileError::UnsupportedValueType("vec3".into())));

    let narrow = formula(
        vec![node(1, "add_float", vec![port(2, "left", "float")], vec![port(3, "out", "float")])],
        FormulaSurface::default(),
    );
    assert_eq!(compiler.compile(&narrow).err(), Some(CompileError::InvalidArity(node_id(1))));

    let mut mismatched = add_fixture();
    mismatched.formula.surface.inputs[0].default = Value::Bool(true);
    assert_eq!(
        compiler.compile(&mismatched.formula).err(),
        Some(CompileError::SurfaceTypeMismatch(mismatched.left))
    );

    let mut dangling = add_fixture();
    dangling.formula.surface.outputs[0].source = reference(1, 99);
    assert_eq!(compiler.compile(&dangling.formula).err(), Some(CompileError::MissingPort(reference(1, 99))));

    let cyclic = formula(
        vec![
            node(1, "pass_through", vec![port(11, "in", "float")], vec![port(12, "out", "float")]),
            node(2, "pass_through", vec![port(21, "in", "float")], vec![port(22, "out", "float")]),
            connect(7, reference(1, 12), reference(2, 21)),
            connect(8, reference(2, 22), reference(1, 11)),
        ],
        FormulaSurface::default(),
    );
    assert_eq!(compiler.compile(&cyclic).err(), Some(CompileError::Cycle(vec![node_id(1), node_id(2)])));
}

fn arithmetic(op: FloatOperation, a: u64, b: u64) -> Option<u64> {
    let (a, b) = (f64::from_bits(a), f64::from_bits(b));
    let result = match op {
        FloatOperation::Add => a + b,
        FloatOperation::Multiply => a * b,
    };
    result.is_finite().then_some(result.to_bits())
}

#[test]
fn compiles_and_evaluates_a_formula_without_interpreting_the_graph() {
    let fixture = add_fixture();
    let registry = ANodeRegistry::with_builtins();
    let kernel = Arc::new(FormulaCompiler::new(&registry).compile(&fixture.formula).unwrap());
    let mut instance = FormulaInstance::new(kernel);
    instance.set_input(fixture.left, float(2.0)).unwrap();
    instance.set_input(fixture.right, float(3.5)).unwrap();

    let report = instance.evaluate(EvaluationOptions::default(), &arithmetic).unwrap();

    assert_eq!(instance.output(fixture.result).unwrap(), &float(5.5));
    assert_eq!(report.executed_operations, 1);
    assert!(report.outputs_changed);
    assert!(report.observation.is_empty());
}

#[test]
fn compile_cache_shares_kernels_and_idle_instances_do_no_work() {
    let fixture = add_fixture();
    let registry = ANodeRegistry::with_builtins();
    let mut cache = FormulaCompileCache::default();
    let first = cache.compile(&fixture.formula, &registry).unwrap();
    let second = cache.compile(&fixture.formula, &registry).unwrap();
    assert!(Arc::ptr_eq(&first, &second));
    assert_eq!(cache.compilation_count(), 1);

    let mut instance = FormulaInstance::new(first);
    instance.evaluate(EvaluationOptions::default(), &arithmetic).unwrap();
    let idle = instance.evaluate(EvaluationOptions::default(), &arithmetic).unwrap();
    assert_eq!(idle.executed_operations, 0);
}

#[test]
fn observation_and_batching_are_opt_in_runtime_features() {
    let fixture = add_fixture();
    let registry = ANodeRegistry::with_builtins();
    let kernel = Arc::new(FormulaCompiler::new(&registry).compile(&fixture.formula).unwrap());
    let mut observed = FormulaInstance::new(Arc::clone(&kernel));
    let report = observed.evaluate(EvaluationOptions { capture_observation: true }, &arithmetic).unwrap();
    assert_eq!(report.observation.len(), 1);
    assert_eq!(report.observation[0].node, ExecNodeId(0));
    assert_eq!(report.observation[0].output, ValueSlot(0));
    assert_eq!(report.observation[0].value, float(1.5));

    let mut instances = vec![FormulaInstance::new(Arc::clone(&kernel)), FormulaInstance::new(kernel)];
    let report = evaluate_batch(&mut instances, EvaluationOptions::default(), &arithmetic).unwrap();
    assert_eq!(report.instances, 2);
    assert_eq!(report.executed_operations, 2);
    assert_eq!(report.outputs_changed, 2);
}

#[test]
fn inputs_outputs_and_runtime_errors() {
    let fixture = add_fixture();
    let registry = ANodeRegistry::with_builtins();
    let kernel = Arc::new(FormulaCompiler::new(&registry).compile(&fixture.formula).unwrap());
    let mut instance = FormulaInstance::new(kernel);
    let unknown = SurfaceItemId(EntityId(999));
    assert_eq!(instance.set_input(unknown, float(1.0)), Err(FormulaRuntimeError::MissingInput(unknown)));
    assert_eq!(instance.output(unknown).err(), Some(FormulaRuntimeError::MissingOutput(unknown)));
    assert_eq!(instance.set_input(fixture.right, float(1.5)), Ok(false));
    assert_eq!(instance.set_input(fixture.left, float(-0.0)), Ok(false));
    assert_eq!(instance.set_input(fixture.left, Value::Bool(true)), Ok(true));
    assert_eq!(
        instance.evaluate(EvaluationOptions::default(), &arithmetic),
        Err(FormulaRuntimeError::TypeMismatch { expected: "float", actual: "bool" })
    );
    instance.set_input(fixture.left, float(f64::MAX)).unwrap();
    instance.set_input(fixture.right, float(f64::MAX)).unwrap();
    assert_eq!(instance.evaluate(EvaluationOptions::default(), &arithmetic), Err(FormulaRuntimeError::InvalidNumber));
    instance.set_input(fixture.right, float(-1.0)).unwrap();
    let report = instance.evaluate(EvaluationOptions::default(), &arithmetic).unwrap();
    assert_eq!(report.executed_operations, 1);
    assert_eq!(instance.output(fixture.result).unwrap(), &float(f64::MAX - 1.0));
}

#[test]
fn condition_gates_pass_or_zero_their_value() {
    let operations = vec![
        node(1, "condition_gate", vec![port(11, "when", "bool"), port(12, "value", "string")], vec![port(13, "out", "string")]),
    ];
    let when = SurfaceItemId(EntityId(201));
    let value = SurfaceItemId(EntityId(202));
    let out = SurfaceItemId(EntityId(203));
    let surface = FormulaSurface {
        inputs: vec![
            SurfaceInput { id: when, label: "When".into(), target: reference(1, 11), value_type: "bool".into(), default: Value::Bool(true) },
            SurfaceInput { id: value, label: "Value".into(), target: reference(1, 12), value_type: "string".into(), default: Value::String("hi".into()) },
        ],
        outputs: vec![SurfaceOutput { id: out, label: "Out".into(), source: reference(1, 13), value_type: "string".into() }],
    };
    let gate = formula(operations, surface);
    let registry = ANodeRegistry::with_builtins();
    let kernel = Arc::new(FormulaCompiler::new(&registry).compile(&gate).unwrap());
    let mut instance = FormulaInstance::new(kernel);
    let report = instance.evaluate(EvaluationOptions { capture_observation: true }, &arithmetic).unwrap();
    assert_eq!(instance.output(out).unwrap(), &Value::String("hi".into()));
    assert!(report.outputs_changed);
    instance.set_input(when, Value::Bool(false)).unwrap();
    let report = instance.evaluate(EvaluationOptions::default(), &arithmetic).unwrap();
    assert_eq!(report.executed_operations, 1);
    assert_eq!(instance.output(out).unwrap(), &Value::String(String::new()));
}

#[test]
fn single_node_formulas_expose_every_port_on_their_surface() {
    let spec = SingleNodeFormulaSpec {
        id: FormulaId(EntityId(77)),
        name: "Multiply".into(),
        description: "Multiplies two doubles".into(),
        tags: vec!["math".into()],
        node_type: ANodeTypeId("multiply_float".into()),
        inputs: vec![
            SingleNodeInputSpec { name: "a".into(), label: "A".into(), value_type: "float".into(), default: float(2.0) },
            SingleNodeInputSpec { name: "b".into(), label: "B".into(), value_type: "float".into(), default: float(4.0) },
        ],
        outputs: vec![SingleNodeOutputSpec { name: "product".into(), label: "Product".into(), value_type: "float".into() }],
    };
    let built = build_single_node_formula(spec);
    assert_eq!(built.id, FormulaId(EntityId(77)));
    assert_eq!(built.schema, FormulaSchema { version: 1 });
    assert_eq!(built.metadata.name, "Multiply");
    assert_eq!(built.graph.graph_data().name, "Multiply");
    assert_eq!(built.graph.revision(), Revision::new(1));
    let nodes = built.graph.nodes();
    assert_eq!(nodes.len(), 1);
    let node = nodes[0];
    assert_eq!(node.data.inputs.len(), 2);
    assert_eq!(node.data.inputs[1].name, "b");
    assert_eq!(built.surface.inputs[1].target, PortRef { node: node.id, port: node.data.inputs[1].id });
    assert_eq!(built.surface.outputs[0].source, PortRef { node: node.id, port: node.data.outputs[0].id });
    assert_eq!(built.surface.inputs[0].label, "A");

    let registry = ANodeRegistry::with_builtins();
    let kernel = Arc::new(FormulaCompiler::new(&registry).compile(&built).unwrap());
    let mut instance = FormulaInstance::new(kernel);
    instance.evaluate(EvaluationOptions::default(), &arithmetic).unwrap();
    assert_eq!(instance.output(built.surface.outputs[0].id).unwrap(), &float(8.0));
}

#[test]
fn formula_file_round_trip_preserves_authored_contract() {
    let fixture = add_fixture();
    let file = FormulaFileV1::from_formula(&fixture.formula);
    assert_eq!(file.file_version, FORMULA_FILE_VERSION);
    assert_eq!(file.nodes.len(), 1);
    let decoded = file.clone().into_formula().unwrap();

    assert_eq!(decoded.id, fixture.formula.id);
    assert_eq!(decoded.schema, fixture.formula.schema);
    assert_eq!(decoded.metadata, fixture.formula.metadata);
    assert_eq!(decoded.surface, fixture.formula.surface);
    assert_eq!(decoded.graph.nodes().len(), 1);
    assert_eq!(FormulaFileV1::from_formula(&decoded), file);
}

#[test]
fn formula_files_of_other_versions_or_broken_graphs_are_refused() {
    let fixture = add_fixture();
    let mut file = FormulaFileV1::from_formula(&fixture.formula);
    file.file_version = 2;
    assert!(matches!(file.clone().into_formula(), Err(FormulaCodecError::UnsupportedVersion(2))));
    file.file_version = FORMULA_FILE_VERSION;
    file.edges.push(FormulaEdgeV1 {
        id: GraphEdgeId(EntityId(5)),
        from: reference(1, 13),
        to: reference(42, 1),
        policy: ConversionPolicy::Exact,
    });
    assert!(matches!(file.into_formula(), Err(FormulaCodecError::Graph(_))));

    let connected = formula(
        vec![
            node(1, "pass_through", vec![port(11, "in", "float")], vec![port(12, "out", "float")]),
            node(2, "pass_through", vec![port(21, "in", "float")], vec![port(22, "out", "float")]),
            connect(7, reference(1, 12), reference(2, 21)),
        ],
        FormulaSurface::default(),
    );
    let rebuilt = FormulaFileV1::from_formula(&connected).into_formula().unwrap();
    assert_eq!(rebuilt.graph.edges().len(), 1);
    assert_eq!(rebuilt.graph.revision(), Revision::new(1));
}

fn presented_formula() -> AlchemistFormula {
    let point = || Point::new(1.0f64.to_bits(), 2.0f64.to_bits()).unwrap();
    let size = || Size::new(30.0f64.to_bits(), 40.0f64.to_bits()).unwrap();
    let shown = GraphOperation::InsertNode {
        node: GraphNode {
            id: node_id(3),
            data: AlchemistNode {
                node_type: ANodeTypeId("constant".into()),
                inputs: Vec::new(),
                outputs: vec![port(31, "value", "float")],
                config: vec![("value".to_string(), float(2.5))],
            },
        },
        presentation: Some(NodePresentation { position: point(), size: size(), collapsed: true }),
    };
    formula(
        vec![
            node(1, "pass_through", vec![port(11, "in", "float")], vec![port(12, "out", "float")]),
            shown,
            connect(7, reference(3, 31), reference(1, 11)),
            GraphOperation::UpsertComment(GraphComment {
                id: EntityId(50),
                text: "note".into(),
                position: point(),
                size: size(),
            }),
            GraphOperation::UpsertGroup(GraphGroup {
                id: EntityId(60),
                label: "pair".into(),
                nodes: BTreeSet::from([1, 3]),
            }),
            GraphOperation::UpsertBookmark(ViewportBookmark {
                id: EntityId(70),
                label: "home".into(),
                center: point(),
                zoom: FiniteCoordinate::new(1.0f64.to_bits()).unwrap(),
            }),
        ],
        FormulaSurface::default(),
    )
}

#[test]
fn formula_files_rebuild_nodes_edges_and_presentation() {
    let authored = presented_formula();
    let file = FormulaFileV1::from_formula(&authored);
    assert_eq!(file.nodes.len(), 2);
    assert_eq!(file.edges.len(), 1);
    assert!(file.nodes[1].presentation.is_some() && file.nodes[0].presentation.is_none());
    let decoded = file.clone().into_formula().unwrap();
    assert_eq!(decoded.graph.nodes().len(), 2);
    assert_eq!(decoded.graph.edges().len(), 1);
    assert_eq!(decoded.graph.presentation(), authored.graph.presentation());
    assert_eq!(FormulaFileV1::from_formula(&decoded), file);
}

#[test]
fn a_group_naming_a_removed_node_is_refused_when_rebuilt() {
    let mut authored = presented_formula();
    let mut removal = GraphTransaction::new(authored.graph.revision());
    removal.push(GraphOperation::RemoveNode { node: node_id(3) });
    authored.graph.apply(removal).unwrap();
    assert!(authored.graph.presentation().groups[&60].nodes.contains(&3));
    let file = FormulaFileV1::from_formula(&authored);
    assert!(matches!(file.into_formula(), Err(FormulaCodecError::Graph(_))));
}
