//! Authoring and control semantics of parameters over canonical values:
//! declarations that validate values, and states that take new values.

use std::collections::BTreeMap;
use vstd::prelude::*;
use crate::model::{EntityId, Revision};
use crate::text::strings_equal;
use crate::values::{Value, ValueView, value_type_name};

verus! {

/// Whether `bits` is the sign bit set.
pub open spec fn negative_bits(bits: u64) -> bool {
    bits >= 0x8000_0000_0000_0000
}

/// The magnitude of a double: its bits without the sign bit.
pub open spec fn magnitude_bits(bits: u64) -> u64 {
    if negative_bits(bits) {
        (bits - 0x8000_0000_0000_0000) as u64
    } else {
        bits
    }
}

/// The IEEE-754 order of finite doubles, given by their bits: the two zeros
/// are equal, a negative value is below every non-negative one, and values
/// of one sign are ordered by their magnitude.
pub open spec fn double_less(a: u64, b: u64) -> bool {
    if magnitude_bits(a) == 0 && magnitude_bits(b) == 0 {
        false
    } else if negative_bits(a) != negative_bits(b) {
        negative_bits(a)
    } else if negative_bits(a) {
        magnitude_bits(b) < magnitude_bits(a)
    } else {
        magnitude_bits(a) < magnitude_bits(b)
    }
}

/// Whether two finite doubles, given by their bits, are equal: the same
/// bits, or both zeros.
pub open spec fn double_equal(a: u64, b: u64) -> bool {
    a == b || (magnitude_bits(a) == 0 && magnitude_bits(b) == 0)
}

/// Equality of values, with doubles compared as numbers.
pub open spec fn values_equal(a: ValueView, b: ValueView) -> bool {
    match (a, b) {
        (ValueView::Float(x), ValueView::Float(y)) => double_equal(x, y),
        _ => a == b,
    }
}

fn split_double(bits: u64) -> (parts: (bool, u64))
    ensures
        parts.0 == negative_bits(bits),
        parts.1 == magnitude_bits(bits),
{
    if bits >= 0x8000_0000_0000_0000 {
        (true, bits - 0x8000_0000_0000_0000)
    } else {
        (false, bits)
    }
}

/// `a < b` for the finite doubles whose bits are `a` and `b`.
pub fn double_below(a: u64, b: u64) -> (below: bool)
    ensures
        below == double_less(a, b),
{
    let (a_negative, a_magnitude) = split_double(a);
    let (b_negative, b_magnitude) = split_double(b);
    if a_magnitude == 0 && b_magnitude == 0 {
        false
    } else if a_negative != b_negative {
        a_negative
    } else if a_negative {
        b_magnitude < a_magnitude
    } else {
        a_magnitude < b_magnitude
    }
}

/// `a == b` for values, with doubles compared as numbers.
pub fn same_value(a: &Value, b: &Value) -> (same: bool)
    ensures
        same == values_equal(a@, b@),
{
    match (a, b) {
        (Value::Bool(x), Value::Bool(y)) => *x == *y,
        (Value::Integer(x), Value::Integer(y)) => *x == *y,
        (Value::Float(x), Value::Float(y)) => {
            let (_, x_magnitude) = split_double(*x);
            let (_, y_magnitude) = split_double(*y);
            *x == *y || (x_magnitude == 0 && y_magnitude == 0)
        },
        (Value::String(x), Value::String(y)) => strings_equal(x.as_str(), y.as_str()),
        _ => false,
    }
}

/// A restriction on a parameter's values. Numeric bounds are the bits of
/// finite doubles.
#[derive(Clone, Debug, PartialEq, Eq)]
pub enum Constraint {
    /// Doubles must lie within the bounds that are given.
    Numeric { minimum: Option<u64>, maximum: Option<u64> },
    /// Strings must have a number of characters within the bounds.
    Length { minimum: usize, maximum: Option<usize> },
}

/// Whether `value` meets `constraint`; a constraint says nothing of values
/// of other kinds.
pub open spec fn constraint_holds(constraint: Constraint, value: ValueView) -> bool {
    match (constraint, value) {
        (Constraint::Numeric { minimum, maximum }, ValueView::Float(bits)) => {
            &&& !(minimum matches Some(low) && double_less(bits, low))
            &&& !(maximum matches Some(high) && double_less(high, bits))
        },
        (Constraint::Length { minimum, maximum }, ValueView::String(text)) => {
            &&& minimum <= text.len()
            &&& !(maximum matches Some(high) && text.len() > high)
        },
        _ => true,
    }
}

/// Where a parameter's value comes from; `R` is a stable reference to
/// another value.
#[derive(Clone, Debug, PartialEq, Eq)]
pub enum ControlMode<R> {
    Static,
    Reference(R),
    ContextPath(Vec<String>),
    Expression(String),
    Script(String),
    Automation(EntityId),
}

/// When a parameter write takes effect.
#[derive(Clone, Copy, Debug, PartialEq, Eq, Structural)]
pub enum ChangeBehavior {
    /// Every write advances the parameter.
    Always,
    /// Only writes of a different value advance it.
    IfChanged,
    /// Writes are coalesced.
    Coalesce,
}

#[derive(Clone, Debug, PartialEq, Eq)]
pub enum ParameterError {
    TypeMismatch { expected: String, actual: &'static str },
    ConstraintViolation,
    RevisionExhausted,
}

/// The declared type, default, constraints and interface hints of a
/// parameter.
#[derive(Clone, Debug, PartialEq, Eq)]
pub struct ParameterDeclaration {
    pub id: EntityId,
    pub value_type: String,
    pub default: Value,
    pub constraints: Vec<Constraint>,
    pub ui_hints: BTreeMap<String, String>,
}

fn meets_constraint(constraint: &Constraint, value: &Value) -> (meets: bool)
    ensures
        meets == constraint_holds(*constraint, value@),
{
    match (constraint, value) {
        (Constraint::Numeric { minimum, maximum }, Value::Float(bits)) => {
            let below = match minimum {
                Some(low) => double_below(*bits, *low),
                None => false,
            };
            let above = match maximum {
                Some(high) => double_below(*high, *bits),
                None => false,
            };
            !below && !above
        },
        (Constraint::Length { minimum, maximum }, Value::String(text)) => {
            let count = text.as_str().unicode_len();
            let too_long = match maximum {
                Some(high) => count > *high,
                None => false,
            };
            *minimum <= count && !too_long
        },
        _ => true,
    }
}

impl ParameterDeclaration {
    /// Accepts a value of the declared type that meets every constraint.
    pub fn validate(&self, value: &Value) -> (result: Result<(), ParameterError>)
        ensures
            value_type_name(value@) != self.value_type@ ==> (match result {
                Err(ParameterError::TypeMismatch { expected, actual }) => expected == self.value_type && actual@
                    == value_type_name(value@),
                _ => false,
            }),
            value_type_name(value@) == self.value_type@ ==> ((result is Ok) <==> forall|i: int|
                0 <= i < self.constraints@.len() ==> #[trigger] constraint_holds(self.constraints@[i], value@)),
            value_type_name(value@) == self.value_type@ && result is Err ==> result == Err::<(), ParameterError>(
                ParameterError::ConstraintViolation,
            ),
    {
        let actual = value.type_id();
        if !strings_equal(actual, self.value_type.as_str()) {
            return Err(ParameterError::TypeMismatch { expected: self.value_type.clone(), actual });
        }
        let mut i: usize = 0;
        while i < self.constraints.len()
            invariant
                i <= self.constraints@.len(),
                value_type_name(value@) == self.value_type@,
                forall|j: int| 0 <= j < i ==> #[trigger] constraint_holds(self.constraints@[j], value@),
            decreases self.constraints@.len() - i,
        {
            if !meets_constraint(&self.constraints[i], value) {
                return Err(ParameterError::ConstraintViolation);
            }
            i = i + 1;
        }
        Ok(())
    }
}

/// The live value of a parameter, where it comes from and its revision.
#[derive(Clone, Debug, PartialEq, Eq)]
pub struct ParameterState<R> {
    pub declaration: EntityId,
    pub control: ControlMode<R>,
    pub value: Value,
    pub revision: Revision,
}

impl<R> ParameterState<R> {
    /// Takes `value` and advances the revision, returning `true`; except
    /// when the behaviour is not `Always` and the value is equal to the
    /// current one (nothing changes, `false`), and when the revision cannot
    /// advance (nothing changes, `RevisionExhausted`).
    pub fn apply(&mut self, value: Value, behavior: ChangeBehavior) -> (result: Result<bool, ParameterError>)
        ensures
            final(self).declaration == old(self).declaration,
            final(self).control == old(self).control,
            behavior != ChangeBehavior::Always && values_equal(old(self).value@, value@) ==> result == Ok::<
                bool,
                ParameterError,
            >(false) && *final(self) == *old(self),
            !(behavior != ChangeBehavior::Always && values_equal(old(self).value@, value@)) && old(self).revision.0
                == u64::MAX ==> result == Err::<bool, ParameterError>(ParameterError::RevisionExhausted)
                && *final(self) == *old(self),
            !(behavior != ChangeBehavior::Always && values_equal(old(self).value@, value@)) && old(self).revision.0
                < u64::MAX ==> result == Ok::<bool, ParameterError>(true) && final(self).value == value
                && final(self).revision.0 == old(self).revision.0 + 1,
    {
        if behavior != ChangeBehavior::Always && same_value(&self.value, &value) {
            return Ok(false);
        }
        match self.revision.next() {
            Some(revision) => {
                self.revision = revision;
                self.value = value;
                Ok(true)
            },
            None => Err(ParameterError::RevisionExhausted),
        }
    }
}

} // verus!
