use std::sync::Arc;

use golden::alchemist::formula::{AlchemistFormula, FormulaDefaults, FormulaMetadata, FormulaSurface};
use golden::alchemist::{
    ANodeCapabilities, ANodeDefinition, ANodeRegistry, ANodeTypeId, AlchemistGraphData, AlchemistGraphDomain,
    BuiltinOperation, FormulaCatalog, FormulaCatalogError, FormulaId, FormulaSchema,
};
use golden::alchemist::{AlchemistNode, AlchemistPort, ConversionPolicy};
use golden::graph::document::{GraphDocument, GraphEdge, GraphNode};
use golden::graph::domain::PortRef;
use golden::graph::ids::{GraphEdgeId, GraphId, GraphNodeId, GraphPortId};
use golden::graph::transaction::{GraphOperation, GraphTransaction, GraphTransactionError};
use golden::model::{EntityId, Revision};
use golden::processor::{
    BuiltinFormulaAssets, MappingSpec, ProcessorCompileError, ProcessorCompiler, ProcessorDefinition,
    ProcessorDefinitionError, ProcessorId, ProcessorKind, ProcessorSurfaceBinding,
};
use golden::alchemist::SurfaceItemId;

fn formula(name: &str) -> AlchemistFormula {
    let graph = GraphDocument::new(GraphId::new(), AlchemistGraphDomain, AlchemistGraphData { name: name.into() });
    AlchemistFormula {
        id: FormulaId::new(),
        schema: FormulaSchema { version: 1 },
        graph,
        properties: Vec::new(),
        surface: FormulaSurface::default(),
        managed_regions: Vec::new(),
        metadata: FormulaMetadata { name: name.into(), description: String::new(), tags: Vec::new() },
        defaults: FormulaDefaults::default(),
    }
}

#[test]
fn catalog_protects_built_in_formulas() {
    let formula = Arc::new(formula("add"));
    let id = formula.id;
    let mut catalog = FormulaCatalog::new();
    catalog.insert(Arc::clone(&formula), true).unwrap();

    assert_eq!(catalog.insert(Arc::clone(&formula), false).unwrap_err(), FormulaCatalogError::Duplicate(id));
    assert_eq!(catalog.replace(formula).unwrap_err(), FormulaCatalogError::ReadOnly(id));
}

#[test]
fn user_formulas_can_be_replaced_and_missing_ones_cannot() {
    let first = formula("first");
    let id = first.id;
    let mut catalog = FormulaCatalog::new();
    let other = formula("other");
    let other_id = other.id;
    assert_eq!(catalog.replace(Arc::new(other)).unwrap_err(), FormulaCatalogError::Missing(other_id));
    catalog.insert(Arc::new(first), false).unwrap();
    let mut second = formula("second");
    second.id = id;
    catalog.replace(Arc::new(second)).unwrap();
    assert_eq!(catalog.get(id).unwrap().formula.metadata.name, "second");
    assert!(!catalog.get(id).unwrap().built_in);
    assert_eq!(catalog.len(), 1);
}

#[test]
fn registry_revisions_advance_with_each_new_type() {
    let mut registry = ANodeRegistry::with_builtins();
    assert_eq!(registry.revision(), Revision::new(1));
    assert_eq!(registry.get(&ANodeTypeId("add_float".into())).unwrap().operation, BuiltinOperation::AddFloat);
    let duplicate = ANodeDefinition {
        node_type: ANodeTypeId("constant".into()),
        operation: BuiltinOperation::Constant,
        capabilities: ANodeCapabilities::pure(),
    };
    assert!(!registry.register(duplicate));
    assert_eq!(registry.revision(), Revision::new(1));
    let fresh = ANodeDefinition {
        node_type: ANodeTypeId("clamp".into()),
        operation: BuiltinOperation::PassThrough,
        capabilities: ANodeCapabilities::pure(),
    };
    assert!(registry.register(fresh));
    assert_eq!(registry.revision(), Revision::new(2));
    assert!(registry.get(&ANodeTypeId("clamp".into())).is_some());
    assert!(registry.get(&ANodeTypeId("missing".into())).is_none());
}

fn binding(target: SurfaceItemId) -> ProcessorSurfaceBinding {
    ProcessorSurfaceBinding { source: "value".into(), target }
}

#[test]
fn mappings_need_inputs_and_outputs() {
    let formula = BuiltinFormulaAssets::mapping_formula_id();
    let input = SurfaceItemId(EntityId::new());
    let output = SurfaceItemId(EntityId::new());
    let without_inputs: MappingSpec<i64> = MappingSpec { formula, inputs: vec![], outputs: vec![output], condition: None };
    assert_eq!(
        ProcessorDefinition::mapping(ProcessorId(EntityId::new()), without_inputs).err(),
        Some(ProcessorDefinitionError::MissingInputs)
    );
    let without_outputs: MappingSpec<i64> =
        MappingSpec { formula, inputs: vec![binding(input)], outputs: vec![], condition: None };
    assert_eq!(
        ProcessorDefinition::mapping(ProcessorId(EntityId::new()), without_outputs).err(),
        Some(ProcessorDefinitionError::MissingOutputs)
    );
    let spec: MappingSpec<i64> = MappingSpec { formula, inputs: vec![binding(input)], outputs: vec![output], condition: None };
    let mapping = ProcessorDefinition::mapping(ProcessorId(EntityId::new()), spec).ok().unwrap();
    assert_eq!(mapping.kind, ProcessorKind::Mapping);

    let compiler = ProcessorCompiler;
    assert_eq!(compiler.check_bindings(&mapping, formula, &[input], &[output]), Ok(()));
    assert_eq!(
        compiler.check_bindings(&mapping, BuiltinFormulaAssets::action_formula_id(), &[input], &[output]),
        Err(ProcessorCompileError::FormulaMismatch)
    );
    assert_eq!(compiler.check_bindings(&mapping, formula, &[], &[output]), Err(ProcessorCompileError::MissingInput(input)));
    assert_eq!(compiler.check_bindings(&mapping, formula, &[input], &[]), Err(ProcessorCompileError::MissingOutput(output)));

    let action: ProcessorDefinition<i64> =
        ProcessorDefinition::action(ProcessorId(EntityId::new()), formula, vec![binding(input)], vec![output]);
    assert_eq!(action.kind, ProcessorKind::Action);
    assert!(action.condition.is_none());
    assert_ne!(BuiltinFormulaAssets::action_formula_id(), BuiltinFormulaAssets::mapping_formula_id());
}

fn formula_node(inputs: Vec<(u128, &str)>, outputs: Vec<(u128, &str)>) -> AlchemistNode {
    let port = |(id, value_type): (u128, &str)| AlchemistPort {
        id: GraphPortId::from_entity(EntityId::from_u128(id)),
        name: format!("p{id}"),
        value_type: value_type.to_string(),
    };
    AlchemistNode {
        node_type: ANodeTypeId("add_float".into()),
        inputs: inputs.into_iter().map(port).collect(),
        outputs: outputs.into_iter().map(port).collect(),
        config: Vec::new(),
    }
}

#[test]
fn formula_connections_need_matching_types_unless_converted_explicitly() {
    let connect = |policy: ConversionPolicy, input_type: &str| {
        let mut graph =
            GraphDocument::new(GraphId::new(), AlchemistGraphDomain, AlchemistGraphData { name: "f".into() });
        let source = GraphNodeId::from_entity(EntityId::from_u128(1));
        let target = GraphNodeId::from_entity(EntityId::from_u128(2));
        let mut transaction = GraphTransaction::new(Revision::zero());
        transaction.push(GraphOperation::InsertNode {
            node: GraphNode { id: source, data: formula_node(vec![], vec![(10, "float")]) },
            presentation: None,
        });
        transaction.push(GraphOperation::InsertNode {
            node: GraphNode { id: target, data: formula_node(vec![(20, input_type)], vec![]) },
            presentation: None,
        });
        transaction.push(GraphOperation::Connect {
            edge: GraphEdge {
                id: GraphEdgeId::from_entity(EntityId::from_u128(3)),
                from: PortRef { node: source, port: GraphPortId::from_entity(EntityId::from_u128(10)) },
                to: PortRef { node: target, port: GraphPortId::from_entity(EntityId::from_u128(20)) },
                data: policy,
            },
        });
        graph.apply(transaction).map(|commit| commit.change_set.changes.len())
    };
    assert_eq!(connect(ConversionPolicy::Exact, "float").unwrap(), 3);
    assert_eq!(connect(ConversionPolicy::Explicit, "vec2").unwrap(), 3);
    match connect(ConversionPolicy::Exact, "vec2") {
        Err(GraphTransactionError::Connection(diagnostic)) => {
            assert_eq!(diagnostic.code, "alchemist.type_mismatch");
            assert_eq!(diagnostic.message, "float cannot connect to vec2 without an explicit conversion");
        }
        other => panic!("unexpected outcome {other:?}"),
    }
}
