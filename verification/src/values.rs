//! Canonical values carried by formula ports, constants and surfaces.

use vstd::prelude::*;
use vstd::string::*;

verus! {

/// A canonical value. A float is held as the bits of a finite IEEE-754
/// double.
#[derive(Clone, Debug, PartialEq, Eq)]
pub enum Value {
    Bool(bool),
    Integer(i64),
    Float(u64),
    String(String),
}

/// The abstract content of a value.
pub enum ValueView {
    Bool(bool),
    Integer(i64),
    Float(u64),
    String(Seq<char>),
}

impl View for Value {
    type V = ValueView;

    open spec fn view(&self) -> ValueView {
        match self {
            Value::Bool(b) => ValueView::Bool(*b),
            Value::Integer(i) => ValueView::Integer(*i),
            Value::Float(bits) => ValueView::Float(*bits),
            Value::String(s) => ValueView::String(s@),
        }
    }
}

/// The name of the type of a value.
pub open spec fn value_type_name(value: ValueView) -> Seq<char> {
    match value {
        ValueView::Bool(_) => "bool"@,
        ValueView::Integer(_) => "integer"@,
        ValueView::Float(_) => "float"@,
        ValueView::String(_) => "string"@,
    }
}

/// Whether a value counts as true: a true flag, a non-zero integer or
/// double (either zero is false), or a non-empty string.
pub open spec fn value_truthy(value: ValueView) -> bool {
    match value {
        ValueView::Bool(b) => b,
        ValueView::Integer(i) => i != 0,
        ValueView::Float(bits) => bits != 0 && bits != 0x8000_0000_0000_0000,
        ValueView::String(s) => s.len() > 0,
    }
}

/// Whether `value` counts as true.
pub fn truthy(value: &Value) -> (truth: bool)
    ensures
        truth == value_truthy(value@),
{
    match value {
        Value::Bool(b) => *b,
        Value::Integer(i) => *i != 0,
        Value::Float(bits) => *bits != 0 && *bits != 0x8000_0000_0000_0000,
        Value::String(s) => s.unicode_len() > 0,
    }
}

/// The views of a list of values.
pub open spec fn value_views(values: Seq<Value>) -> Seq<ValueView> {
    values.map_values(|value: Value| value@)
}

/// Types whose values can be copied exactly.
pub trait Duplicate: Sized {
    /// An equal value.
    fn duplicate(&self) -> (copy: Self)
        ensures
            copy == *self,
    ;
}

/// An equal list.
pub fn duplicate_all<T: Duplicate>(items: &Vec<T>) -> (copy: Vec<T>)
    ensures
        copy@ == items@,
{
    let mut copy: Vec<T> = Vec::new();
    let mut i: usize = 0;
    while i < items.len()
        invariant
            i <= items@.len(),
            copy@ == items@.take(i as int),
        decreases items@.len() - i,
    {
        copy.push(items[i].duplicate());
        assert(copy@ =~= items@.take(i + 1));
        i = i + 1;
    }
    assert(items@.take(items@.len() as int) =~= items@);
    copy
}

impl Duplicate for String {
    fn duplicate(&self) -> (copy: Self) {
        self.clone()
    }
}

impl Duplicate for Value {
    fn duplicate(&self) -> (copy: Self) {
        Value::duplicate(self)
    }
}

impl<A: Duplicate, B: Duplicate> Duplicate for (A, B) {
    fn duplicate(&self) -> (copy: Self) {
        (self.0.duplicate(), self.1.duplicate())
    }
}

impl Value {
    /// The name of this value's type.
    pub fn type_id(&self) -> (name: &'static str)
        ensures
            name@ == value_type_name(self@),
    {
        proof {
            reveal_strlit("bool");
            reveal_strlit("integer");
            reveal_strlit("float");
            reveal_strlit("string");
        }
        match self {
            Value::Bool(_) => "bool",
            Value::Integer(_) => "integer",
            Value::Float(_) => "float",
            Value::String(_) => "string",
        }
    }

    /// An equal value.
    pub fn duplicate(&self) -> (copy: Value)
        ensures
            copy == *self,
    {
        match self {
            Value::Bool(b) => Value::Bool(*b),
            Value::Integer(i) => Value::Integer(*i),
            Value::Float(bits) => Value::Float(*bits),
            Value::String(s) => Value::String(s.clone()),
        }
    }
}

} // verus!
