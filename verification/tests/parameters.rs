use std::collections::BTreeMap;

use golden::model::{EntityId, Revision};
use golden::parameters::{
    double_below, same_value, ChangeBehavior, Constraint, ControlMode, ParameterDeclaration, ParameterError,
    ParameterState,
};
use golden::values::Value;

fn float(value: f64) -> Value {
    Value::Float(value.to_bits())
}

#[test]
fn declarations_reject_type_and_constraint_mismatches() {
    let declaration = ParameterDeclaration {
        id: EntityId::new(),
        value_type: "float".into(),
        default: float(0.5),
        constraints: vec![Constraint::Numeric { minimum: Some(0.0f64.to_bits()), maximum: Some(1.0f64.to_bits()) }],
        ui_hints: BTreeMap::new(),
    };

    assert_eq!(declaration.validate(&float(2.0)), Err(ParameterError::ConstraintViolation));
    assert!(matches!(declaration.validate(&Value::Bool(false)), Err(ParameterError::TypeMismatch { .. })));
}

#[test]
fn unchanged_values_do_not_advance_if_changed_state() {
    let mut state: ParameterState<u64> = ParameterState {
        declaration: EntityId::new(),
        control: ControlMode::Static,
        value: Value::Bool(true),
        revision: Revision::new(3),
    };
    assert!(!state.apply(Value::Bool(true), ChangeBehavior::IfChanged).unwrap());
    assert_eq!(state.revision, Revision::new(3));
    assert!(state.apply(Value::Bool(false), ChangeBehavior::IfChanged).unwrap());
    assert_eq!(state.revision, Revision::new(4));
}

#[test]
fn numeric_bounds_follow_the_order_of_doubles() {
    let declaration = ParameterDeclaration {
        id: EntityId::new(),
        value_type: "float".into(),
        default: float(0.0),
        constraints: vec![Constraint::Numeric { minimum: Some((-1.5f64).to_bits()), maximum: Some(2.0f64.to_bits()) }],
        ui_hints: BTreeMap::new(),
    };
    assert_eq!(declaration.validate(&float(-1.5)), Ok(()));
    assert_eq!(declaration.validate(&float(-0.0)), Ok(()));
    assert_eq!(declaration.validate(&float(2.0)), Ok(()));
    assert_eq!(declaration.validate(&float(-1.75)), Err(ParameterError::ConstraintViolation));
    assert_eq!(declaration.validate(&float(2.5)), Err(ParameterError::ConstraintViolation));
    assert_eq!(
        declaration.validate(&Value::Integer(1)),
        Err(ParameterError::TypeMismatch { expected: "float".into(), actual: "integer" })
    );
    assert!(double_below((-3.0f64).to_bits(), (-2.0f64).to_bits()));
    assert!(!double_below((-0.0f64).to_bits(), 0.0f64.to_bits()));
    assert!(double_below((-0.0f64).to_bits(), 1e-300f64.to_bits()));
    assert!(!double_below(5.0f64.to_bits(), 4.0f64.to_bits()));
}

#[test]
fn length_bounds_count_characters() {
    let declaration = ParameterDeclaration {
        id: EntityId::new(),
        value_type: "string".into(),
        default: Value::String(String::new()),
        constraints: vec![Constraint::Length { minimum: 1, maximum: Some(3) }, Constraint::Numeric { minimum: None, maximum: None }],
        ui_hints: BTreeMap::new(),
    };
    assert_eq!(declaration.validate(&Value::String("äöü".into())), Ok(()));
    assert_eq!(declaration.validate(&Value::String(String::new())), Err(ParameterError::ConstraintViolation));
    assert_eq!(declaration.validate(&Value::String("abcd".into())), Err(ParameterError::ConstraintViolation));
}

#[test]
fn always_advances_and_exhausted_revisions_refuse() {
    let mut state: ParameterState<u64> = ParameterState {
        declaration: EntityId::new(),
        control: ControlMode::Reference(7),
        value: float(0.0),
        revision: Revision::new(u64::MAX - 1),
    };
    assert!(!state.apply(float(-0.0), ChangeBehavior::Coalesce).unwrap());
    assert!(state.apply(float(0.0), ChangeBehavior::Always).unwrap());
    assert_eq!(state.revision, Revision::new(u64::MAX));
    assert_eq!(state.apply(float(1.0), ChangeBehavior::IfChanged), Err(ParameterError::RevisionExhausted));
    assert_eq!(state.value, float(0.0));
    assert!(same_value(&float(0.0), &float(-0.0)));
    assert!(!same_value(&Value::Integer(0), &float(0.0)));
}
