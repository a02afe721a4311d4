use golden::values::{truthy, Value};
use golden::condition::{
    input_outcomes, reduce, Comparison, ConditionCompileError, ConditionCompiler, ConditionExpr, ConditionInputId, ConditionOp,
    ConditionRuntimeError,
};

#[test]
fn nested_conditions_compile_to_postfix_ir_and_evaluate_without_authored_walks() {
    let enabled = ConditionInputId("enabled".into());
    let count = ConditionInputId("count".into());
    let expression: ConditionExpr<i64> = ConditionExpr::All(vec![
        ConditionExpr::Truthy(enabled.duplicate()),
        ConditionExpr::Compare { input: count.duplicate(), comparison: Comparison::GreaterOrEqual, expected: 2 },
    ]);
    let program = ConditionCompiler.compile(&expression).unwrap();
    assert_eq!(program.operations().len(), 3);

    // `enabled` is true and `count` is 3, which is at least 2.
    let outcomes = [Ok(true), Ok(3 >= 2)];
    assert!(program.evaluate(&outcomes).unwrap());
}

#[test]
fn empty_boolean_groups_have_explicit_identities() {
    let all = ConditionCompiler.compile(&ConditionExpr::<i64>::All(Vec::new())).unwrap();
    let any = ConditionCompiler.compile(&ConditionExpr::<i64>::Any(Vec::new())).unwrap();
    assert!(all.evaluate(&[]).unwrap());
    assert!(!any.evaluate(&[]).unwrap());
}

#[test]
fn programs_are_postfix_with_counted_groups() {
    let expression: ConditionExpr<i64> = ConditionExpr::Not(Box::new(ConditionExpr::Any(vec![
        ConditionExpr::Literal(false),
        ConditionExpr::Truthy(ConditionInputId("x".into())),
        ConditionExpr::Literal(true),
    ])));
    let program = ConditionCompiler.compile(&expression).unwrap();
    let operations = program.operations();
    assert_eq!(operations.len(), 5);
    assert!(matches!(operations[0], ConditionOp::Push(false)));
    assert!(matches!(operations[1], ConditionOp::Truthy(_)));
    assert!(matches!(operations[2], ConditionOp::Push(true)));
    assert!(matches!(operations[3], ConditionOp::Any(3)));
    assert!(matches!(operations[4], ConditionOp::Not));
    assert_eq!(program.maximum_stack(), 3);
    assert_eq!(program.evaluate(&[Ok(false)]), Ok(false));
}

#[test]
fn the_first_failing_input_decides_the_error() {
    let expression: ConditionExpr<i64> = ConditionExpr::All(vec![
        ConditionExpr::Truthy(ConditionInputId("a".into())),
        ConditionExpr::Truthy(ConditionInputId("b".into())),
    ]);
    let program = ConditionCompiler.compile(&expression).unwrap();
    let outcomes = [
        Err(ConditionRuntimeError::MissingInput(ConditionInputId("a".into()))),
        Err(ConditionRuntimeError::NotOrderable),
    ];
    assert_eq!(program.evaluate(&outcomes), Err(ConditionRuntimeError::MissingInput(ConditionInputId("a".into()))));
    assert_eq!(program.evaluate(&[Ok(true)]), Err(ConditionRuntimeError::InvalidProgram));
}

#[test]
fn reduce_refuses_short_stacks() {
    let mut stack = vec![true, false, true];
    assert_eq!(reduce(&mut stack, 2, false), Ok(()));
    assert_eq!(stack, [true, true]);
    assert_eq!(reduce(&mut stack, 3, true), Err(ConditionRuntimeError::InvalidProgram));
    assert_eq!(stack, [true, true]);
    assert_eq!(reduce(&mut stack, 0, true), Ok(()));
    assert_eq!(stack, [true, true, true]);
    let _ = ConditionCompileError::TooManyTerms;
}

#[test]
fn values_are_truthy_unless_false_zero_or_empty() {
    assert!(truthy(&Value::Bool(true)) && !truthy(&Value::Bool(false)));
    assert!(truthy(&Value::Integer(-3)) && !truthy(&Value::Integer(0)));
    assert!(truthy(&Value::Float(0.5f64.to_bits())));
    assert!(!truthy(&Value::Float(0.0f64.to_bits())) && !truthy(&Value::Float((-0.0f64).to_bits())));
    assert!(truthy(&Value::String("a".into())) && !truthy(&Value::String(String::new())));
}

#[test]
fn input_tests_read_named_values_in_program_order() {
    let expression: ConditionExpr<Value> = ConditionExpr::All(vec![
        ConditionExpr::Truthy(ConditionInputId("enabled".into())),
        ConditionExpr::Compare {
            input: ConditionInputId("count".into()),
            comparison: Comparison::GreaterOrEqual,
            expected: Value::Integer(2),
        },
        ConditionExpr::Truthy(ConditionInputId("missing".into())),
    ]);
    let program = ConditionCompiler.compile(&expression).unwrap();
    let inputs = vec![("count".to_string(), Value::Integer(3)), ("enabled".to_string(), Value::Bool(true))];
    let compare = |left: &Value, right: &Value, comparison: Comparison| match (left, right) {
        (Value::Integer(l), Value::Integer(r)) if comparison == Comparison::GreaterOrEqual => Ok(l >= r),
        _ => Err(ConditionRuntimeError::NotOrderable),
    };
    let outcomes = input_outcomes(&program, &inputs, compare);
    assert_eq!(
        outcomes,
        vec![Ok(true), Ok(true), Err(ConditionRuntimeError::MissingInput(ConditionInputId("missing".into())))]
    );
    assert_eq!(
        program.evaluate(&outcomes),
        Err(ConditionRuntimeError::MissingInput(ConditionInputId("missing".into())))
    );
}
