//! Dense evaluation of compiled kernels: an instance holds one value per
//! slot, takes new surface inputs, and runs the operations whose inputs
//! changed. Double arithmetic is supplied by the caller.

use std::sync::Arc;
use vstd::prelude::*;
use vstd::string::*;
use crate::values::{Value, ValueView, value_type_name, value_views};
use crate::parameters::{same_value, values_equal};
use super::{BatchEvaluationReport, EvaluationOptions, ExecNodeId, SurfaceItemId, ValueSlot};
use super::compiler::{CompiledFormulaKernel, CompiledOp, kernel_wf, op_slots_within};

verus! {

/// A double operation that evaluation asks of its arithmetic.
#[derive(Clone, Copy, Debug, PartialEq, Eq, Structural)]
pub enum FloatOperation {
    Add,
    Multiply,
}

/// A value an operation wrote, recorded when observation is on.
#[derive(Clone, Debug, PartialEq, Eq)]
pub struct ObservationSample {
    pub node: ExecNodeId,
    pub output: ValueSlot,
    pub value: Value,
}

/// What one evaluation did.
#[derive(Clone, Debug, Default, PartialEq, Eq)]
pub struct EvaluationReport {
    pub executed_operations: usize,
    pub outputs_changed: bool,
    pub observation: Vec<ObservationSample>,
}

#[derive(Clone, Debug, PartialEq, Eq)]
pub enum FormulaRuntimeError {
    MissingInput(SurfaceItemId),
    MissingOutput(SurfaceItemId),
    MissingSlot(ValueSlot),
    TypeMismatch { expected: &'static str, actual: &'static str },
    /// The arithmetic gave no finite double.
    InvalidNumber,
}

/// The abstract content of a runtime error.
pub enum RuntimeFault {
    MissingInput(SurfaceItemId),
    MissingOutput(SurfaceItemId),
    MissingSlot(ValueSlot),
    TypeMismatch { expected: Seq<char>, actual: Seq<char> },
    InvalidNumber,
}

impl View for FormulaRuntimeError {
    type V = RuntimeFault;

    open spec fn view(&self) -> RuntimeFault {
        match self {
            FormulaRuntimeError::MissingInput(id) => RuntimeFault::MissingInput(*id),
            FormulaRuntimeError::MissingOutput(id) => RuntimeFault::MissingOutput(*id),
            FormulaRuntimeError::MissingSlot(slot) => RuntimeFault::MissingSlot(*slot),
            FormulaRuntimeError::TypeMismatch { expected, actual } => RuntimeFault::TypeMismatch {
                expected: expected@,
                actual: actual@,
            },
            FormulaRuntimeError::InvalidNumber => RuntimeFault::InvalidNumber,
        }
    }
}

/// The value a false condition gate yields for `value`: the zero of its
/// type.
pub open spec fn zero_like(value: ValueView) -> ValueView {
    match value {
        ValueView::Bool(_) => ValueView::Bool(false),
        ValueView::Integer(_) => ValueView::Integer(0),
        ValueView::Float(_) => ValueView::Float(0),
        ValueView::String(_) => ValueView::String(Seq::empty()),
    }
}

/// The bits of a double operand, or the type mismatch it causes.
pub open spec fn double_operand(value: ValueView) -> Result<u64, RuntimeFault> {
    match value {
        ValueView::Float(bits) => Ok(bits),
        _ => Err(RuntimeFault::TypeMismatch { expected: "float"@, actual: value_type_name(value) }),
    }
}

/// The result of double operation `op` on `left` and `right`, given the
/// arithmetic's `results`.
pub open spec fn combine(
    op: FloatOperation,
    left: ValueView,
    right: ValueView,
    results: spec_fn(FloatOperation, u64, u64) -> Option<u64>,
) -> Result<ValueView, RuntimeFault> {
    match double_operand(left) {
        Err(fault) => Err(fault),
        Ok(a) => match double_operand(right) {
            Err(fault) => Err(fault),
            Ok(b) => match results(op, a, b) {
                Some(bits) => Ok(ValueView::Float(bits)),
                None => Err(RuntimeFault::InvalidNumber),
            },
        },
    }
}

/// The value that `op` computes from `slots`.
pub open spec fn operation_result(
    op: CompiledOp,
    slots: Seq<ValueView>,
    results: spec_fn(FloatOperation, u64, u64) -> Option<u64>,
) -> Result<ValueView, RuntimeFault> {
    match op {
        CompiledOp::Constant { value, .. } => Ok(value@),
        CompiledOp::AddFloat { left, right, .. } => combine(
            FloatOperation::Add,
            slots[left.0 as int],
            slots[right.0 as int],
            results,
        ),
        CompiledOp::MultiplyFloat { left, right, .. } => combine(
            FloatOperation::Multiply,
            slots[left.0 as int],
            slots[right.0 as int],
            results,
        ),
        CompiledOp::PassThrough { input, .. } => Ok(slots[input.0 as int]),
        CompiledOp::ConditionGate { condition, value, .. } => match slots[condition.0 as int] {
            ValueView::Bool(true) => Ok(slots[value.0 as int]),
            ValueView::Bool(false) => Ok(zero_like(slots[value.0 as int])),
            other => Err(RuntimeFault::TypeMismatch { expected: "bool"@, actual: value_type_name(other) }),
        },
    }
}

/// Whether a slot that `op` reads is dirty; a constant reads none.
pub open spec fn operation_dirty(op: CompiledOp, dirty: Seq<bool>) -> bool {
    match op {
        CompiledOp::Constant { .. } => false,
        CompiledOp::AddFloat { left, right, .. } => dirty[left.0 as int] || dirty[right.0 as int],
        CompiledOp::MultiplyFloat { left, right, .. } => dirty[left.0 as int] || dirty[right.0 as int],
        CompiledOp::PassThrough { input, .. } => dirty[input.0 as int],
        CompiledOp::ConditionGate { condition, value, .. } => dirty[condition.0 as int] || dirty[value.0 as int],
    }
}

/// Skipping a clean operation loses nothing: an operation none of whose
/// read slots is dirty computes the same result from any slots that differ
/// from the current ones only at dirty slots. So a slot an operation reads
/// cannot change without making the operation dirty.
pub proof fn lemma_clean_operations_keep_their_result(
    op: CompiledOp,
    slots: Seq<ValueView>,
    changed: Seq<ValueView>,
    dirty: Seq<bool>,
    results: spec_fn(FloatOperation, u64, u64) -> Option<u64>,
)
    requires
        slots.len() == dirty.len(),
        changed.len() == dirty.len(),
        op_slots_within(op, dirty.len()),
        forall|i: int| 0 <= i < dirty.len() && !dirty[i] ==> #[trigger] changed[i] == slots[i],
        !operation_dirty(op, dirty),
    ensures
        operation_result(op, changed, results) == operation_result(op, slots, results),
{
    match op {
        CompiledOp::AddFloat { left, right, .. } => {
            assert(changed[left.0 as int] == slots[left.0 as int]);
            assert(changed[right.0 as int] == slots[right.0 as int]);
        },
        CompiledOp::MultiplyFloat { left, right, .. } => {
            assert(changed[left.0 as int] == slots[left.0 as int]);
            assert(changed[right.0 as int] == slots[right.0 as int]);
        },
        CompiledOp::PassThrough { input, .. } => {
            assert(changed[input.0 as int] == slots[input.0 as int]);
        },
        CompiledOp::ConditionGate { condition, value, .. } => {
            assert(changed[condition.0 as int] == slots[condition.0 as int]);
            assert(changed[value.0 as int] == slots[value.0 as int]);
        },
        _ => {},
    }
}

/// Dirtiness comes only from dirty slots: with no slot dirty, no operation
/// is dirty.
pub proof fn lemma_nothing_dirty_without_dirty_slots(op: CompiledOp, dirty: Seq<bool>)
    requires
        op_slots_within(op, dirty.len()),
        !dirty.contains(true),
    ensures
        !operation_dirty(op, dirty),
{
    match op {
        CompiledOp::AddFloat { left, right, .. } => {
            assert(dirty[left.0 as int] ==> dirty.contains(true));
            assert(dirty[right.0 as int] ==> dirty.contains(true));
        },
        CompiledOp::MultiplyFloat { left, right, .. } => {
            assert(dirty[left.0 as int] ==> dirty.contains(true));
            assert(dirty[right.0 as int] ==> dirty.contains(true));
        },
        CompiledOp::PassThrough { input, .. } => {
            assert(dirty[input.0 as int] ==> dirty.contains(true));
        },
        CompiledOp::ConditionGate { condition, value, .. } => {
            assert(dirty[condition.0 as int] ==> dirty.contains(true));
            assert(dirty[value.0 as int] ==> dirty.contains(true));
        },
        _ => {},
    }
}

/// The state of an evaluation in progress.
pub struct EvaluationState {
    pub slots: Seq<ValueView>,
    pub dirty: Seq<bool>,
    pub executed: nat,
    pub outputs_changed: bool,
    pub observation: Seq<(ExecNodeId, ValueSlot, ValueView)>,
}

/// One operation of an evaluation: it runs when `forced` or when a slot it
/// reads is dirty; a new value of its output slot is written and marks the
/// slot dirty. A fault stops the evaluation in the state it reached.
pub open spec fn evaluation_step(
    op: CompiledOp,
    state: EvaluationState,
    forced: bool,
    output_slots: Set<u32>,
    capture: bool,
    results: spec_fn(FloatOperation, u64, u64) -> Option<u64>,
) -> Result<EvaluationState, (EvaluationState, RuntimeFault)> {
    if !(forced || operation_dirty(op, state.dirty)) {
        Ok(state)
    } else {
        match operation_result(op, state.slots, results) {
            Err(fault) => Err((state, fault)),
            Ok(next) => {
                let out = op.spec_output().0 as int;
                let changed = !values_equal(state.slots[out], next);
                let slots = if changed {
                    state.slots.update(out, next)
                } else {
                    state.slots
                };
                Ok(
                    EvaluationState {
                        slots,
                        dirty: if changed {
                            state.dirty.update(out, true)
                        } else {
                            state.dirty
                        },
                        executed: state.executed + 1,
                        outputs_changed: state.outputs_changed || (changed && output_slots.contains(
                            op.spec_output().0,
                        )),
                        observation: if capture {
                            state.observation.push((op.spec_node(), op.spec_output(), slots[out]))
                        } else {
                            state.observation
                        },
                    },
                )
            },
        }
    }
}

/// The operations `ops`, run in order from `state`.
pub open spec fn evaluation_run(
    ops: Seq<CompiledOp>,
    state: EvaluationState,
    forced: bool,
    output_slots: Set<u32>,
    capture: bool,
    results: spec_fn(FloatOperation, u64, u64) -> Option<u64>,
) -> Result<EvaluationState, (EvaluationState, RuntimeFault)>
    decreases ops.len(),
{
    if ops.len() == 0 {
        Ok(state)
    } else {
        match evaluation_run(ops.drop_last(), state, forced, output_slots, capture, results) {
            Err(stopped) => Err(stopped),
            Ok(reached) => evaluation_step(ops.last(), reached, forced, output_slots, capture, results),
        }
    }
}

/// The results of the arithmetic `f`: the one it returns for each
/// operation and operands.
pub open spec fn arithmetic_results<F: Fn(FloatOperation, u64, u64) -> Option<u64>>(f: F) -> spec_fn(
    FloatOperation,
    u64,
    u64,
) -> Option<u64> {
    |op: FloatOperation, a: u64, b: u64| choose|r: Option<u64>| f.ensures((op, a, b), r)
}

/// `f` can be called on every operation and operands and returns one
/// result for each.
pub open spec fn arithmetic_is_function<F: Fn(FloatOperation, u64, u64) -> Option<u64>>(f: F) -> bool {
    &&& forall|op: FloatOperation, a: u64, b: u64| f.requires((op, a, b))
    &&& forall|op: FloatOperation, a: u64, b: u64, r: Option<u64>, s: Option<u64>|
        f.ensures((op, a, b), r) && f.ensures((op, a, b), s) ==> r == s
}

/// The observation of a report, as values.
pub open spec fn observation_view(samples: Seq<ObservationSample>) -> Seq<(ExecNodeId, ValueSlot, ValueView)> {
    samples.map_values(|sample: ObservationSample| (sample.node, sample.output, sample.value@))
}


/// Whether some slot is dirty.
fn any_dirty(dirty: &Vec<bool>) -> (any: bool)
    ensures
        any == dirty@.contains(true),
{
    let mut i: usize = 0;
    while i < dirty.len()
        invariant
            i <= dirty@.len(),
            forall|j: int| 0 <= j < i ==> !dirty@[j],
        decreases dirty@.len() - i,
    {
        if dirty[i] {
            assert(dirty@[i as int]);
            return true;
        }
        i = i + 1;
    }
    proof {
        if dirty@.contains(true) {
            let j = choose|j: int| 0 <= j < dirty@.len() && dirty@[j] == true;
            assert(!dirty@[j]);
        }
    }
    false
}

fn operation_is_dirty(op: &CompiledOp, dirty: &Vec<bool>) -> (is_dirty: bool)
    requires
        op_slots_within(*op, dirty@.len()),
    ensures
        is_dirty == operation_dirty(*op, dirty@),
{
    match op {
        CompiledOp::Constant { .. } => false,
        CompiledOp::AddFloat { left, right, .. } => dirty[left.0 as usize] || dirty[right.0 as usize],
        CompiledOp::MultiplyFloat { left, right, .. } => dirty[left.0 as usize] || dirty[right.0 as usize],
        CompiledOp::PassThrough { input, .. } => dirty[input.0 as usize],
        CompiledOp::ConditionGate { condition, value, .. } => dirty[condition.0 as usize] || dirty[value.0 as usize],
    }
}

fn zero_of(value: &Value) -> (zero: Value)
    ensures
        zero@ == zero_like(value@),
{
    match value {
        Value::Bool(_) => Value::Bool(false),
        Value::Integer(_) => Value::Integer(0),
        Value::Float(_) => Value::Float(0),
        Value::String(_) => Value::String(String::new()),
    }
}

fn double_in(value: &Value) -> (bits: Result<u64, FormulaRuntimeError>)
    ensures
        match double_operand(value@) {
            Ok(b) => bits == Ok::<u64, FormulaRuntimeError>(b),
            Err(fault) => bits matches Err(e) && e@ == fault,
        },
{
    proof {
        reveal_strlit("float");
    }
    match value {
        Value::Float(bits) => Ok(*bits),
        _ => Err(FormulaRuntimeError::TypeMismatch { expected: "float", actual: value.type_id() }),
    }
}

fn combine_doubles<F: Fn(FloatOperation, u64, u64) -> Option<u64>>(
    op: FloatOperation,
    left: &Value,
    right: &Value,
    arithmetic: &F,
) -> (result: Result<Value, FormulaRuntimeError>)
    requires
        arithmetic_is_function(*arithmetic),
    ensures
        match combine(op, left@, right@, arithmetic_results(*arithmetic)) {
            Ok(v) => result matches Ok(x) && x@ == v,
            Err(fault) => result matches Err(e) && e@ == fault,
        },
{
    let a = match double_in(left) {
        Ok(a) => a,
        Err(error) => return Err(error),
    };
    let b = match double_in(right) {
        Ok(b) => b,
        Err(error) => return Err(error),
    };
    let computed = arithmetic(op, a, b);
    proof {
        let chosen = arithmetic_results(*arithmetic)(op, a, b);
        assert(arithmetic.ensures((op, a, b), computed));
        assert(arithmetic.ensures((op, a, b), chosen));
        assert(chosen == computed);
    }
    match computed {
        Some(bits) => Ok(Value::Float(bits)),
        None => Err(FormulaRuntimeError::InvalidNumber),
    }
}

/// The value that `op` computes from `slots`.
fn evaluate_operation<F: Fn(FloatOperation, u64, u64) -> Option<u64>>(
    op: &CompiledOp,
    slots: &Vec<Value>,
    arithmetic: &F,
) -> (result: Result<Value, FormulaRuntimeError>)
    requires
        op_slots_within(*op, slots@.len()),
        arithmetic_is_function(*arithmetic),
    ensures
        match operation_result(*op, value_views(slots@), arithmetic_results(*arithmetic)) {
            Ok(v) => result matches Ok(x) && x@ == v,
            Err(fault) => result matches Err(e) && e@ == fault,
        },
{
    proof {
        reveal_strlit("bool");
    }
    let ghost views = value_views(slots@);
    match op {
        CompiledOp::Constant { value, .. } => Ok(value.duplicate()),
        CompiledOp::AddFloat { left, right, .. } => {
            assert(views[left.0 as int] == slots@[left.0 as int]@);
            assert(views[right.0 as int] == slots@[right.0 as int]@);
            combine_doubles(FloatOperation::Add, &slots[left.0 as usize], &slots[right.0 as usize], arithmetic)
        },
        CompiledOp::MultiplyFloat { left, right, .. } => {
            assert(views[left.0 as int] == slots@[left.0 as int]@);
            assert(views[right.0 as int] == slots@[right.0 as int]@);
            combine_doubles(
                FloatOperation::Multiply,
                &slots[left.0 as usize],
                &slots[right.0 as usize],
                arithmetic,
            )
        },
        CompiledOp::PassThrough { input, .. } => {
            assert(views[input.0 as int] == slots@[input.0 as int]@);
            Ok(slots[input.0 as usize].duplicate())
        },
        CompiledOp::ConditionGate { condition, value, .. } => {
            assert(views[condition.0 as int] == slots@[condition.0 as int]@);
            assert(views[value.0 as int] == slots@[value.0 as int]@);
            match &slots[condition.0 as usize] {
                Value::Bool(true) => Ok(slots[value.0 as usize].duplicate()),
                Value::Bool(false) => Ok(zero_of(&slots[value.0 as usize])),
                other => Err(FormulaRuntimeError::TypeMismatch { expected: "bool", actual: other.type_id() }),
            }
        },
    }
}

proof fn lemma_run_stops(
    ops: Seq<CompiledOp>,
    state: EvaluationState,
    forced: bool,
    output_slots: Set<u32>,
    capture: bool,
    results: spec_fn(FloatOperation, u64, u64) -> Option<u64>,
    k: int,
)
    requires
        0 <= k <= ops.len(),
        evaluation_run(ops.take(k), state, forced, output_slots, capture, results) is Err,
    ensures
        evaluation_run(ops, state, forced, output_slots, capture, results) == evaluation_run(
            ops.take(k),
            state,
            forced,
            output_slots,
            capture,
            results,
        ),
    decreases ops.len() - k,
{
    if k < ops.len() {
        assert(ops.take(k + 1).drop_last() =~= ops.take(k));
        lemma_run_stops(ops, state, forced, output_slots, capture, results, k + 1);
    } else {
        assert(ops.take(k) =~= ops);
    }
}


/// What an evaluation of `before` with observation `capture` and arithmetic
/// `results` gives: `after` and `result`. An instance that is not forced and
/// has no dirty slot does nothing; otherwise the operations run in order
/// (see `evaluation_run`). After a complete run no slot is dirty and the
/// next run is not a first one; a failed run keeps the values written before
/// the failure and the dirty flags.
pub open spec fn evaluation_outcome(
    before: FormulaInstance,
    after: FormulaInstance,
    capture: bool,
    results: spec_fn(FloatOperation, u64, u64) -> Option<u64>,
    result: Result<EvaluationReport, FormulaRuntimeError>,
) -> bool {
    &&& after.spec_kernel() == before.spec_kernel()
    &&& !before.spec_forced() && !before.spec_dirty().contains(true) ==> {
        &&& result matches Ok(report) && report.executed_operations == 0 && !report.outputs_changed
            && report.observation@.len() == 0
        &&& after.spec_slots() == before.spec_slots()
        &&& after.spec_dirty() == before.spec_dirty()
        &&& after.spec_first_evaluation() == before.spec_first_evaluation()
    }
    &&& before.spec_forced() || before.spec_dirty().contains(true) ==> match evaluation_run(
        before.spec_kernel().operations@,
        before.spec_start(),
        before.spec_forced(),
        before.spec_kernel().output_slots@,
        capture,
        results,
    ) {
        Ok(reached) => {
            &&& result matches Ok(report) && report.executed_operations == reached.executed
                && report.outputs_changed == reached.outputs_changed && observation_view(report.observation@)
                == reached.observation
            &&& after.spec_slots() == reached.slots
            &&& after.spec_dirty() == Seq::new(before.spec_slot_count(), |i: int| false)
            &&& !after.spec_first_evaluation()
        },
        Err((reached, fault)) => {
            &&& result matches Err(error) && error@ == fault
            &&& after.spec_slots() == reached.slots
            &&& after.spec_dirty() == reached.dirty
            &&& after.spec_first_evaluation() == before.spec_first_evaluation()
        },
    }
}

/// The slots of one evaluation of a kernel, which dirty slots to recompute,
/// and whether it has run before.
pub struct FormulaInstance {
    kernel: Arc<CompiledFormulaKernel>,
    slots: Vec<Value>,
    dirty: Vec<bool>,
    first_evaluation: bool,
}

impl FormulaInstance {
    /// The kernel is well formed and there is one value and one dirty flag
    /// per slot.
    pub closed spec fn wf(&self) -> bool {
        &&& kernel_wf(*self.kernel)
        &&& self.slots@.len() == self.kernel.slot_defaults@.len()
        &&& self.dirty@.len() == self.slots@.len()
    }

    pub closed spec fn spec_kernel(&self) -> CompiledFormulaKernel {
        *self.kernel
    }

    pub closed spec fn spec_slots(&self) -> Seq<ValueView> {
        value_views(self.slots@)
    }

    pub closed spec fn spec_dirty(&self) -> Seq<bool> {
        self.dirty@
    }

    pub closed spec fn spec_first_evaluation(&self) -> bool {
        self.first_evaluation
    }

    /// The number of slots.
    pub open spec fn spec_slot_count(&self) -> nat {
        self.spec_kernel().slot_defaults@.len()
    }

    /// A fresh instance: every slot at its default, none dirty, not yet
    /// evaluated.
    pub fn new(kernel: Arc<CompiledFormulaKernel>) -> (instance: Self)
        requires
            kernel_wf(*kernel),
        ensures
            instance.wf(),
            instance.spec_kernel() == *kernel,
            instance.spec_slots() == value_views(kernel.slot_defaults@),
            instance.spec_dirty() == Seq::new(kernel.slot_defaults@.len(), |i: int| false),
            instance.spec_first_evaluation(),
    {
        let count = kernel.slot_defaults.len();
        let mut slots: Vec<Value> = Vec::new();
        let mut dirty: Vec<bool> = Vec::new();
        let mut i: usize = 0;
        while i < count
            invariant
                i <= count,
                count == kernel.slot_defaults@.len(),
                slots@.len() == i,
                dirty@.len() == i,
                forall|j: int| 0 <= j < i ==> slots@[j] == kernel.slot_defaults@[j],
                forall|j: int| 0 <= j < i ==> !dirty@[j],
            decreases count - i,
        {
            slots.push(kernel.slot_defaults[i].duplicate());
            dirty.push(false);
            i = i + 1;
        }
        assert(value_views(slots@) =~= value_views(kernel.slot_defaults@));
        assert(dirty@ =~= Seq::new(count as nat, |i: int| false));
        FormulaInstance { kernel, slots, dirty, first_evaluation: true }
    }

    /// The kernel this instance evaluates.
    pub fn kernel(&self) -> (kernel: &Arc<CompiledFormulaKernel>)
        requires
            self.wf(),
        ensures
            **kernel == self.spec_kernel(),
    {
        &self.kernel
    }

    /// Sets surface input `input` to `value`: `true` when the slot changed
    /// (it is then dirty), `false` when it held an equal value.
    pub fn set_input(&mut self, input: SurfaceItemId, value: Value) -> (result: Result<bool, FormulaRuntimeError>)
        requires
            old(self).wf(),
        ensures
            final(self).wf(),
            final(self).spec_kernel() == old(self).spec_kernel(),
            final(self).spec_first_evaluation() == old(self).spec_first_evaluation(),
            !old(self).spec_kernel().surface_inputs@.contains_key(input.0.0) ==> result == Err::<
                bool,
                FormulaRuntimeError,
            >(FormulaRuntimeError::MissingInput(input)) && final(self).spec_slots() == old(self).spec_slots()
                && final(self).spec_dirty() == old(self).spec_dirty(),
            old(self).spec_kernel().surface_inputs@.contains_key(input.0.0) ==> {
                let slot = old(self).spec_kernel().surface_inputs@[input.0.0].0 as int;
                if values_equal(old(self).spec_slots()[slot], value@) {
                    &&& result == Ok::<bool, FormulaRuntimeError>(false)
                    &&& final(self).spec_slots() == old(self).spec_slots()
                    &&& final(self).spec_dirty() == old(self).spec_dirty()
                } else {
                    &&& result == Ok::<bool, FormulaRuntimeError>(true)
                    &&& final(self).spec_slots() == old(self).spec_slots().update(slot, value@)
                    &&& final(self).spec_dirty() == old(self).spec_dirty().update(slot, true)
                }
            },
    {
        let slot = match self.kernel.surface_inputs.get(&input.0.0) {
            Some(slot) => *slot,
            None => return Err(FormulaRuntimeError::MissingInput(input)),
        };
        let index = slot.0 as usize;
        if same_value(&self.slots[index], &value) {
            return Ok(false);
        }
        let ghost before = value_views(self.slots@);
        self.slots.set(index, value);
        self.dirty.set(index, true);
        assert(value_views(self.slots@) =~= before.update(index as int, self.slots@[index as int]@));
        Ok(true)
    }

    /// The state an evaluation of this instance starts from.
    pub open spec fn spec_start(&self) -> EvaluationState {
        EvaluationState {
            slots: self.spec_slots(),
            dirty: self.spec_dirty(),
            executed: 0,
            outputs_changed: false,
            observation: Seq::empty(),
        }
    }

    /// Whether an evaluation runs every operation: on the first evaluation,
    /// and always for a kernel that depends on time.
    pub open spec fn spec_forced(&self) -> bool {
        self.spec_first_evaluation() || self.spec_kernel().time_dependent
    }

    /// Runs the operations in order, each when forced or when a slot it
    /// reads is dirty, as `evaluation_outcome` states.
    #[verifier::loop_isolation(false)]
    pub fn evaluate<F: Fn(FloatOperation, u64, u64) -> Option<u64>>(
        &mut self,
        options: EvaluationOptions,
        arithmetic: &F,
    ) -> (result: Result<EvaluationReport, FormulaRuntimeError>)
        requires
            old(self).wf(),
            arithmetic_is_function(*arithmetic),
        ensures
            final(self).wf(),
            evaluation_outcome(*old(self), *final(self), options.capture_observation, arithmetic_results(*arithmetic), result),
    {
        let forced = self.first_evaluation || self.kernel.time_dependent;
        if !forced && !any_dirty(&self.dirty) {
            return Ok(EvaluationReport { executed_operations: 0, outputs_changed: false, observation: Vec::new() });
        }
        let kernel = Arc::clone(&self.kernel);
        let ghost ops = kernel.operations@;
        let ghost start = self.spec_start();
        let ghost results = arithmetic_results(*arithmetic);
        let ghost output_slots = kernel.output_slots@;
        let ghost count = kernel.slot_defaults@.len();
        let capture = options.capture_observation;
        let mut report = EvaluationReport { executed_operations: 0, outputs_changed: false, observation: Vec::new() };
        let mut i: usize = 0;
        assert(ops.take(0) =~= Seq::<CompiledOp>::empty());
        assert(observation_view(report.observation@) =~= Seq::<(ExecNodeId, ValueSlot, ValueView)>::empty());
        while i < kernel.operations.len()
            invariant
                i <= ops.len(),
                ops == kernel.operations@,
                *kernel == *self.kernel,
                *self.kernel == old(self).spec_kernel(),
                self.first_evaluation == old(self).spec_first_evaluation(),
                self.wf(),
                count == self.slots@.len(),
                output_slots == kernel.output_slots@,
                report.executed_operations <= i,
                evaluation_run(ops.take(i as int), start, forced, output_slots, capture, results) == Ok::<
                    EvaluationState,
                    (EvaluationState, RuntimeFault),
                >(
                    EvaluationState {
                        slots: value_views(self.slots@),
                        dirty: self.dirty@,
                        executed: report.executed_operations as nat,
                        outputs_changed: report.outputs_changed,
                        observation: observation_view(report.observation@),
                    },
                ),
            decreases ops.len() - i,
        {
            let operation = &kernel.operations[i];
            assert(ops.take(i + 1).drop_last() =~= ops.take(i as int));
            assert(ops.take(i + 1).last() == *operation);
            assert(op_slots_within(ops[i as int], count));
            if forced || operation_is_dirty(operation, &self.dirty) {
                let output = operation.output();
                let next = match evaluate_operation(operation, &self.slots, arithmetic) {
                    Ok(next) => next,
                    Err(error) => {
                        proof {
                            lemma_run_stops(ops, start, forced, output_slots, capture, results, i + 1);
                        }
                        return Err(error);
                    },
                };
                let out = output.0 as usize;
                let changed = !same_value(&self.slots[out], &next);
                let ghost views = value_views(self.slots@);
                if changed {
                    self.slots.set(out, next);
                    self.dirty.set(out, true);
                    assert(value_views(self.slots@) =~= views.update(out as int, self.slots@[out as int]@));
                    if kernel.output_slots.contains(&output.0) {
                        report.outputs_changed = true;
                    }
                }
                report.executed_operations = report.executed_operations + 1;
                if capture {
                    let ghost observed = observation_view(report.observation@);
                    report.observation.push(
                        ObservationSample { node: operation.node(), output, value: self.slots[out].duplicate() },
                    );
                    assert(observation_view(report.observation@) =~= observed.push(
                        (operation.spec_node(), output, self.slots@[out as int]@),
                    ));
                }
            }
            i = i + 1;
        }
        assert(ops.take(ops.len() as int) =~= ops);
        self.first_evaluation = false;
        let ghost reached_slots = self.slots@;
        let mut j: usize = 0;
        while j < self.dirty.len()
            invariant
                j <= self.dirty@.len(),
                self.dirty@.len() == count,
                self.wf(),
                *self.kernel == old(self).spec_kernel(),
                self.slots@ == reached_slots,
                !self.first_evaluation,
                forall|k: int| 0 <= k < j ==> !self.dirty@[k],
            decreases self.dirty@.len() - j,
        {
            self.dirty.set(j, false);
            j = j + 1;
        }
        assert(self.dirty@ =~= Seq::new(count, |i: int| false));
        Ok(report)
    }

    /// The value of surface output `output`.
    pub fn output(&self, output: SurfaceItemId) -> (result: Result<&Value, FormulaRuntimeError>)
        requires
            self.wf(),
        ensures
            match result {
                Ok(value) => self.spec_kernel().surface_outputs@.contains_key(output.0.0) && value@
                    == self.spec_slots()[self.spec_kernel().surface_outputs@[output.0.0].0 as int],
                Err(error) => !self.spec_kernel().surface_outputs@.contains_key(output.0.0) && error
                    == FormulaRuntimeError::MissingOutput(output),
            },
    {
        let slot = match self.kernel.surface_outputs.get(&output.0.0) {
            Some(slot) => *slot,
            None => return Err(FormulaRuntimeError::MissingOutput(output)),
        };
        Ok(&self.slots[slot.0 as usize])
    }
}


/// An instance whose evaluation completed does no work on its next
/// evaluation unless its kernel depends on time or an input changed in
/// between: that evaluation executes nothing and changes nothing.
pub proof fn lemma_idle_instances_do_no_work(
    first: FormulaInstance,
    evaluated: FormulaInstance,
    again: FormulaInstance,
    capture: bool,
    results: spec_fn(FloatOperation, u64, u64) -> Option<u64>,
    report: EvaluationReport,
    next_capture: bool,
    next_results: spec_fn(FloatOperation, u64, u64) -> Option<u64>,
    next: Result<EvaluationReport, FormulaRuntimeError>,
)
    requires
        evaluation_outcome(first, evaluated, capture, results, Ok(report)),
        !first.spec_kernel().time_dependent,
        evaluation_outcome(evaluated, again, next_capture, next_results, next),
    ensures
        next matches Ok(idle) && idle.executed_operations == 0 && !idle.outputs_changed,
        again.spec_slots() == evaluated.spec_slots(),
        again.spec_dirty() == evaluated.spec_dirty(),
{
    if first.spec_forced() || first.spec_dirty().contains(true) {
        let dirty = evaluated.spec_dirty();
        if dirty.contains(true) {
            let i = choose|i: int| 0 <= i < dirty.len() && dirty[i] == true;
            assert(!dirty[i]);
        }
    }
}

/// The total number of operations of the kernels of `instances`.
pub open spec fn total_operations(instances: Seq<FormulaInstance>) -> nat
    decreases instances.len(),
{
    if instances.len() == 0 {
        0
    } else {
        total_operations(instances.drop_last()) + instances.last().spec_kernel().operations@.len()
    }
}

/// The operations executed over `reports`.
pub open spec fn executed_total(reports: Seq<EvaluationReport>) -> nat
    decreases reports.len(),
{
    if reports.len() == 0 {
        0
    } else {
        executed_total(reports.drop_last()) + reports.last().executed_operations as nat
    }
}

/// The number of `reports` whose outputs changed.
pub open spec fn changed_count(reports: Seq<EvaluationReport>) -> nat
    decreases reports.len(),
{
    if reports.len() == 0 {
        0
    } else {
        changed_count(reports.drop_last()) + if reports.last().outputs_changed {
            1nat
        } else {
            0nat
        }
    }
}

pub proof fn lemma_total_prefix(instances: Seq<FormulaInstance>, k: int)
    requires
        0 <= k <= instances.len(),
    ensures
        total_operations(instances.take(k)) <= total_operations(instances),
    decreases instances.len() - k,
{
    if k < instances.len() {
        lemma_total_prefix(instances, k + 1);
        assert(instances.take(k + 1).drop_last() =~= instances.take(k));
    } else {
        assert(instances.take(k) =~= instances);
    }
}

proof fn lemma_run_executed(
    ops: Seq<CompiledOp>,
    state: EvaluationState,
    forced: bool,
    output_slots: Set<u32>,
    capture: bool,
    results: spec_fn(FloatOperation, u64, u64) -> Option<u64>,
)
    ensures
        evaluation_run(ops, state, forced, output_slots, capture, results) matches Ok(reached) ==> reached.executed
            <= state.executed + ops.len(),
    decreases ops.len(),
{
    if ops.len() > 0 {
        lemma_run_executed(ops.drop_last(), state, forced, output_slots, capture, results);
    }
}

pub proof fn lemma_executed_bound(
    before: FormulaInstance,
    after: FormulaInstance,
    capture: bool,
    results: spec_fn(FloatOperation, u64, u64) -> Option<u64>,
    report: EvaluationReport,
)
    requires
        evaluation_outcome(before, after, capture, results, Ok(report)),
    ensures
        report.executed_operations <= before.spec_kernel().operations@.len(),
{
    lemma_run_executed(
        before.spec_kernel().operations@,
        before.spec_start(),
        before.spec_forced(),
        before.spec_kernel().output_slots@,
        capture,
        results,
    );
}

/// Evaluating `before` gave `after` and succeeded.
pub open spec fn evaluated(
    before: FormulaInstance,
    after: FormulaInstance,
    capture: bool,
    results: spec_fn(FloatOperation, u64, u64) -> Option<u64>,
) -> bool {
    exists|report: EvaluationReport| #[trigger] evaluation_outcome(before, after, capture, results, Ok(report))
}

/// A batch evaluation of `before`, giving `after`, stopped at instance `k`
/// with `error`: the instances before `k` were evaluated, instance `k`
/// failed, and the instances after it were left as they were.
pub open spec fn batch_stopped_at(
    before: Seq<FormulaInstance>,
    after: Seq<FormulaInstance>,
    k: int,
    capture: bool,
    results: spec_fn(FloatOperation, u64, u64) -> Option<u64>,
    error: FormulaRuntimeError,
) -> bool {
    &&& 0 <= k < before.len()
    &&& after.len() == before.len()
    &&& forall|i: int| 0 <= i < k ==> #[trigger] evaluated(before[i], after[i], capture, results)
    &&& evaluation_outcome(before[k], after[k], capture, results, Err(error))
    &&& forall|i: int| k < i < before.len() ==> #[trigger] after[i] == before[i]
}

/// Evaluates every instance in order, stopping at the first failure; the
/// report counts the instances, the operations they executed and those
/// whose outputs changed.
pub fn evaluate_batch<F: Fn(FloatOperation, u64, u64) -> Option<u64>>(
    instances: &mut Vec<FormulaInstance>,
    options: EvaluationOptions,
    arithmetic: &F,
) -> (result: Result<BatchEvaluationReport, FormulaRuntimeError>)
    requires
        forall|i: int| 0 <= i < old(instances)@.len() ==> (#[trigger] old(instances)@[i]).wf(),
        arithmetic_is_function(*arithmetic),
        total_operations(old(instances)@) <= usize::MAX,
    ensures
        final(instances)@.len() == old(instances)@.len(),
        forall|i: int| 0 <= i < final(instances)@.len() ==> (#[trigger] final(instances)@[i]).wf(),
        match result {
            Ok(report) => {
                &&& report.instances == old(instances)@.len()
                &&& exists|reports: Seq<EvaluationReport>|
                    {
                        &&& reports.len() == old(instances)@.len()
                        &&& forall|i: int|
                            0 <= i < reports.len() ==> evaluation_outcome(
                                #[trigger] old(instances)@[i],
                                final(instances)@[i],
                                options.capture_observation,
                                arithmetic_results(*arithmetic),
                                Ok(reports[i]),
                            )
                        &&& report.executed_operations == executed_total(reports)
                        &&& report.outputs_changed == changed_count(reports)
                    }
            },
            Err(error) => exists|k: int|
                #[trigger] batch_stopped_at(
                    old(instances)@,
                    final(instances)@,
                    k,
                    options.capture_observation,
                    arithmetic_results(*arithmetic),
                    error,
                ),
        },
{
    let ghost starting = instances@;
    let ghost results = arithmetic_results(*arithmetic);
    let count = instances.len();
    let mut executed: usize = 0;
    let mut changed: usize = 0;
    let ghost mut reports: Seq<EvaluationReport> = Seq::empty();
    let mut i: usize = 0;
    while i < count
        invariant
            i <= count,
            count == starting.len(),
            starting == old(instances)@,
            instances@.len() == count,
            arithmetic_is_function(*arithmetic),
            results == arithmetic_results(*arithmetic),
            total_operations(starting) <= usize::MAX,
            forall|j: int| 0 <= j < count ==> (#[trigger] instances@[j]).wf(),
            forall|j: int| i <= j < count ==> #[trigger] instances@[j] == starting[j],
            reports.len() == i,
            forall|j: int|
                0 <= j < i ==> evaluation_outcome(
                    #[trigger] starting[j],
                    instances@[j],
                    options.capture_observation,
                    results,
                    Ok(reports[j]),
                ),
            forall|j: int| 0 <= j < i ==> (#[trigger] reports[j]).executed_operations <= starting[j].spec_kernel().operations@.len(),
            executed == executed_total(reports),
            executed <= total_operations(starting.take(i as int)),
            changed == changed_count(reports),
            changed <= i,
        decreases count - i,
    {
        let ghost before = instances@;
        let outcome = instances[i].evaluate(options, arithmetic);
        assert(instances@.len() == count);
        assert(forall|j: int| 0 <= j < count && j != i ==> instances@[j] == before[j]);
        assert(starting.take(i + 1).drop_last() =~= starting.take(i as int));
        match outcome {
            Ok(report) => {
                proof {
                    lemma_executed_bound(starting[i as int], instances@[i as int], options.capture_observation, results, report);
                    lemma_total_prefix(starting, i + 1);
                    assert(reports.push(report).drop_last() =~= reports);
                    reports = reports.push(report);
                }
                executed = executed + report.executed_operations;
                if report.outputs_changed {
                    changed = changed + 1;
                }
            },
            Err(error) => {
                proof {
                    assert forall|j: int| 0 <= j < i implies #[trigger] evaluated(
                        starting[j],
                        instances@[j],
                        options.capture_observation,
                        results,
                    ) by {
                        assert(evaluation_outcome(starting[j], instances@[j], options.capture_observation, results, Ok(reports[j])));
                    }
                    assert forall|j: int| i < j < count implies #[trigger] instances@[j] == starting[j] by {
                        assert(instances@[j] == before[j]);
                    }
                    assert(batch_stopped_at(starting, instances@, i as int, options.capture_observation, results, error));
                }
                return Err(error);
            },
        }
        i = i + 1;
    }
    Ok(BatchEvaluationReport { instances: count, executed_operations: executed, outputs_changed: changed })
}

} // verus!
