use std::sync::Arc;

use golden::alchemist::compiler::{FormulaCompileCache, FormulaCompiler};
use golden::alchemist::runtime::FloatOperation;
use golden::alchemist::{ANodeRegistry, EvaluationOptions};
use golden::condition::{ConditionCompiler, ConditionExpr, ConditionInputId, ConditionRuntimeError};
use golden::lanes::{ContextAxis, ContextItem, ContextLimits};
use golden::model::EntityId;
use golden::processor::{
    BuiltinFormulaAssets, MappingSpec, ProcessorCompileError, ProcessorCompiler, ProcessorDefinition, ProcessorId,
    ProcessorRuntime, ProcessorRuntimeError, ProcessorSurfaceBinding,
};
use golden::values::Value;

fn float(value: f64) -> Value {
    Value::Float(value.to_bits())
}

fn arithmetic(op: FloatOperation, a: u64, b: u64) -> Option<u64> {
    let (a, b) = (f64::from_bits(a), f64::from_bits(b));
    let result = match op {
        FloatOperation::Add => a + b,
        FloatOperation::Multiply => a * b,
    };
    result.is_finite().then_some(result.to_bits())
}

#[test]
fn mapping_creation_uses_one_path_and_processor_lanes_share_a_kernel() {
    let formula = BuiltinFormulaAssets::mapping();
    let condition_input = formula.surface.inputs[0].id;
    let value_input = formula.surface.inputs[1].id;
    let output = formula.surface.outputs[0].id;
    let enabled = ConditionInputId("enabled".into());
    let condition = Arc::new(ConditionCompiler.compile(&ConditionExpr::<Value>::Truthy(enabled.duplicate())).unwrap());
    let definition = ProcessorDefinition::mapping(
        ProcessorId(EntityId::new()),
        MappingSpec {
            formula: formula.id,
            inputs: vec![
                ProcessorSurfaceBinding { source: "condition".into(), target: condition_input },
                ProcessorSurfaceBinding { source: "value".into(), target: value_input },
            ],
            outputs: vec![output],
            condition: Some(condition),
        },
    )
    .ok()
    .unwrap();
    let axis = ContextAxis {
        id: EntityId::new(),
        label: "fixtures".into(),
        items: vec![
            ContextItem { id: EntityId::new(), label: "a".into(), value: Value::Integer(0) },
            ContextItem { id: EntityId::new(), label: "b".into(), value: Value::Integer(1) },
        ],
    };
    let mut cache = FormulaCompileCache::default();
    let registry = ANodeRegistry::with_builtins();
    let plan = ProcessorCompiler
        .compile(definition, &formula, vec![axis], ContextLimits::default(), &mut cache, &registry)
        .ok()
        .unwrap();
    let kernel = Arc::clone(&plan.kernel);
    let mut runtime = ProcessorRuntime::new(plan);
    assert!(Arc::ptr_eq(&kernel, runtime.kernel()));
    assert_eq!(runtime.lane_keys().len(), 2);
    for lane in 0..2 {
        runtime.set_input(lane, condition_input, Value::Bool(true)).unwrap();
        runtime.set_input(lane, value_input, float(lane as f64 + 1.0)).unwrap();
    }
    let condition_outcomes = vec![vec![Ok(true)], vec![Ok(false)]];
    let report = runtime.evaluate(&condition_outcomes, EvaluationOptions::default(), &arithmetic).unwrap();
    assert_eq!(report.condition_rejected, 1);
    assert_eq!(report.executed_operations, 1);
    assert_eq!(runtime.output(0, output).unwrap(), &float(1.0));
    assert_eq!(cache.compilation_count(), 1);
}

#[test]
fn action_and_mapping_are_real_compilable_formula_assets() {
    let registry = ANodeRegistry::with_builtins();
    let action = BuiltinFormulaAssets::action();
    let mapping = BuiltinFormulaAssets::mapping();
    assert!(FormulaCompiler::new(&registry).compile(&action).is_ok());
    assert!(FormulaCompiler::new(&registry).compile(&mapping).is_ok());
    assert_eq!(action.id, BuiltinFormulaAssets::action_formula_id());
    assert_eq!(mapping.id, BuiltinFormulaAssets::mapping_formula_id());
}

#[test]
fn single_multi_input_and_conditioned_mappings_share_one_creation_path() {
    let formula = BuiltinFormulaAssets::mapping();
    let input = formula.surface.inputs[0].id;
    let output = formula.surface.outputs[0].id;
    for input_count in [1, 3] {
        let inputs = (0..input_count)
            .map(|index| ProcessorSurfaceBinding { source: format!("input-{index}"), target: input })
            .collect();
        let definition = ProcessorDefinition::mapping(
            ProcessorId(EntityId::new()),
            MappingSpec {
                formula: formula.id,
                inputs,
                outputs: vec![output],
                condition: (input_count > 1)
                    .then(|| Arc::new(ConditionCompiler.compile(&ConditionExpr::<Value>::Literal(true)).unwrap())),
            },
        )
        .ok()
        .unwrap();
        assert_eq!(definition.inputs.len(), input_count);
    }
}

#[test]
fn lane_errors_and_planning_errors() {
    let formula = BuiltinFormulaAssets::action();
    let input = formula.surface.inputs[0].id;
    let output = formula.surface.outputs[0].id;
    let definition: ProcessorDefinition<Value> = ProcessorDefinition::action(
        ProcessorId(EntityId::new()),
        formula.id,
        vec![ProcessorSurfaceBinding { source: "value".into(), target: input }],
        vec![output],
    );
    let registry = ANodeRegistry::with_builtins();
    let mut cache = FormulaCompileCache::default();
    let mapping = BuiltinFormulaAssets::mapping();
    let mismatched: ProcessorDefinition<Value> = ProcessorDefinition::action(
        ProcessorId(EntityId::new()),
        formula.id,
        vec![],
        vec![output],
    );
    assert_eq!(
        ProcessorCompiler
            .compile::<Value, Value>(mismatched, &mapping, vec![], ContextLimits::default(), &mut cache, &registry)
            .err(),
        Some(ProcessorCompileError::FormulaMismatch)
    );
    assert_eq!(cache.compilation_count(), 0);
    let plan = ProcessorCompiler
        .compile::<Value, Value>(definition, &formula, vec![], ContextLimits::default(), &mut cache, &registry)
        .ok()
        .unwrap();
    let mut runtime = ProcessorRuntime::new(plan);
    assert_eq!(runtime.lane_keys().len(), 1);
    assert!(matches!(runtime.set_input(3, input, float(1.0)), Err(ProcessorRuntimeError::MissingLane(3))));
    assert!(matches!(runtime.output(1, output), Err(ProcessorRuntimeError::MissingLane(1))));
    runtime.set_input(0, input, float(4.0)).unwrap();
    let report = runtime.evaluate(&vec![], EvaluationOptions::default(), &arithmetic).unwrap();
    assert_eq!(report.lanes, 1);
    assert_eq!(report.executed_operations, 1);
    assert_eq!(runtime.output(0, output).unwrap(), &float(4.0));

    let gated_formula = BuiltinFormulaAssets::mapping();
    let gated: ProcessorDefinition<Value> = ProcessorDefinition::mapping(
        ProcessorId(EntityId::new()),
        MappingSpec {
            formula: gated_formula.id,
            inputs: vec![ProcessorSurfaceBinding { source: "v".into(), target: gated_formula.surface.inputs[1].id }],
            outputs: vec![gated_formula.surface.outputs[0].id],
            condition: Some(Arc::new(
                ConditionCompiler.compile(&ConditionExpr::<Value>::Truthy(ConditionInputId("x".into()))).unwrap(),
            )),
        },
    )
    .ok()
    .unwrap();
    let plan = ProcessorCompiler
        .compile::<Value, Value>(gated, &gated_formula, vec![], ContextLimits::default(), &mut cache, &registry)
        .ok()
        .unwrap();
    let mut gated_runtime = ProcessorRuntime::new(plan);
    assert!(matches!(
        gated_runtime.evaluate(&vec![], EvaluationOptions::default(), &arithmetic),
        Err(ProcessorRuntimeError::ConditionLaneCount { expected: 1, actual: 0 })
    ));
    let missing = vec![vec![Err(ConditionRuntimeError::MissingInput(ConditionInputId("x".into())))]];
    assert!(matches!(
        gated_runtime.evaluate(&missing, EvaluationOptions::default(), &arithmetic),
        Err(ProcessorRuntimeError::Condition(ConditionRuntimeError::MissingInput(_)))
    ));
}
