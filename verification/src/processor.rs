//! Processors: actions and mappings that run a formula over context lanes,
//! optionally gated by a condition.

use std::sync::Arc;
use vstd::prelude::*;
use vstd::string::*;
use crate::graph::document::GraphNode;
use crate::graph::domain::PortRef;
use crate::alchemist::{ANodeRegistry, EvaluationOptions, FormulaId, SurfaceItemId};
use crate::alchemist::builder::{
    SingleNodeFormulaSpec, SingleNodeInputSpec, SingleNodeOutputSpec, build_single_node_formula,
};
use crate::alchemist::compiler::{CompileError, CompiledFormulaKernel, FormulaCompileCache, cache_outcome, kernel_wf};
use crate::alchemist::formula::{AlchemistFormula, SurfaceInput, SurfaceOutput};
use crate::alchemist::runtime::{
    FloatOperation, FormulaInstance, FormulaRuntimeError, arithmetic_is_function, arithmetic_results,
    evaluation_outcome, lemma_executed_bound, lemma_total_prefix, total_operations,
};
use crate::alchemist::{ANodeTypeId, AlchemistGraphDomain};
use crate::condition::{ConditionProgram, ConditionRuntimeError, op_shapes, run_program};
use crate::values::Value;
use crate::lanes::{
    ContextAxis, ContextError, ContextKey, ContextLimits, LaneLayout, axis_item_ids, compile_outcome, item_counts, lane_key,
};
use crate::model::EntityId;

verus! {

/// A processor's identity.
#[derive(Clone, Copy, Debug, PartialEq, Eq, Structural, PartialOrd, Ord, Hash)]
pub struct ProcessorId(pub EntityId);

#[derive(Clone, Copy, Debug, PartialEq, Eq, Structural)]
pub enum ProcessorKind {
    Action,
    Mapping,
}

/// Feeds the value named `source` into the formula input `target`.
#[derive(Clone, Debug, PartialEq, Eq)]
pub struct ProcessorSurfaceBinding {
    pub source: String,
    pub target: SurfaceItemId,
}

/// What a mapping is made from.
pub struct MappingSpec<V> {
    pub formula: FormulaId,
    pub inputs: Vec<ProcessorSurfaceBinding>,
    pub outputs: Vec<SurfaceItemId>,
    pub condition: Option<Arc<ConditionProgram<V>>>,
}

/// A processor: the formula it runs, how its inputs are fed, which outputs
/// it publishes and, for a mapping, an optional gate.
pub struct ProcessorDefinition<V> {
    pub id: ProcessorId,
    pub kind: ProcessorKind,
    pub formula: FormulaId,
    pub inputs: Vec<ProcessorSurfaceBinding>,
    pub outputs: Vec<SurfaceItemId>,
    pub condition: Option<Arc<ConditionProgram<V>>>,
}

#[derive(Clone, Copy, Debug, PartialEq, Eq, Structural)]
pub enum ProcessorDefinitionError {
    /// A mapping needs at least one input.
    MissingInputs,
    /// A mapping needs at least one output.
    MissingOutputs,
}

impl<V> ProcessorDefinition<V> {
    /// A mapping made from `spec`; refused without inputs, then without
    /// outputs.
    pub fn mapping(id: ProcessorId, spec: MappingSpec<V>) -> (result: Result<Self, ProcessorDefinitionError>)
        ensures
            spec.inputs@.len() == 0 ==> result == Err::<Self, ProcessorDefinitionError>(
                ProcessorDefinitionError::MissingInputs,
            ),
            spec.inputs@.len() > 0 && spec.outputs@.len() == 0 ==> result == Err::<Self, ProcessorDefinitionError>(
                ProcessorDefinitionError::MissingOutputs,
            ),
            spec.inputs@.len() > 0 && spec.outputs@.len() > 0 ==> (result matches Ok(definition) && definition
                == (ProcessorDefinition {
                id,
                kind: ProcessorKind::Mapping,
                formula: spec.formula,
                inputs: spec.inputs,
                outputs: spec.outputs,
                condition: spec.condition,
            })),
    {
        if spec.inputs.len() == 0 {
            return Err(ProcessorDefinitionError::MissingInputs);
        }
        if spec.outputs.len() == 0 {
            return Err(ProcessorDefinitionError::MissingOutputs);
        }
        Ok(
            ProcessorDefinition {
                id,
                kind: ProcessorKind::Mapping,
                formula: spec.formula,
                inputs: spec.inputs,
                outputs: spec.outputs,
                condition: spec.condition,
            },
        )
    }

    /// An action: an ungated processor.
    pub fn action(
        id: ProcessorId,
        formula: FormulaId,
        inputs: Vec<ProcessorSurfaceBinding>,
        outputs: Vec<SurfaceItemId>,
    ) -> (definition: Self)
        ensures
            definition == (ProcessorDefinition::<V> {
                id,
                kind: ProcessorKind::Action,
                formula,
                inputs,
                outputs,
                condition: None,
            }),
    {
        ProcessorDefinition { id, kind: ProcessorKind::Action, formula, inputs, outputs, condition: None }
    }
}

/// Why a processor cannot be planned.
#[derive(Clone, Debug, PartialEq, Eq)]
pub enum ProcessorCompileError {
    /// The processor names another formula.
    FormulaMismatch,
    /// A binding targets an input the formula does not have.
    MissingInput(SurfaceItemId),
    /// An output is not one of the formula's.
    MissingOutput(SurfaceItemId),
    /// The context lanes cannot be laid out.
    Context(ContextError),
    /// The formula does not compile.
    Formula(CompileError),
}

/// The first of `wanted` that is not in `available`.
pub open spec fn first_absent(wanted: Seq<SurfaceItemId>, available: Seq<SurfaceItemId>) -> Option<SurfaceItemId>
    decreases wanted.len(),
{
    if wanted.len() == 0 {
        None
    } else if !available.contains(wanted[0]) {
        Some(wanted[0])
    } else {
        first_absent(wanted.drop_first(), available)
    }
}

/// The first of `wanted` that is not in `available`.
fn find_absent(wanted: &Vec<SurfaceItemId>, available: &[SurfaceItemId]) -> (absent: Option<SurfaceItemId>)
    ensures
        absent == first_absent(wanted@, available@),
{
    let mut i: usize = 0;
    assert(wanted@.subrange(0, wanted@.len() as int) =~= wanted@);
    while i < wanted.len()
        invariant
            i <= wanted@.len(),
            first_absent(wanted@, available@) == first_absent(wanted@.subrange(i as int, wanted@.len() as int), available@),
        decreases wanted@.len() - i,
    {
        assert(wanted@.subrange(i as int, wanted@.len() as int).drop_first() =~= wanted@.subrange(
            i + 1,
            wanted@.len() as int,
        ));
        let target = wanted[i];
        let mut j: usize = 0;
        let mut found = false;
        while j < available.len() && !found
            invariant
                j <= available@.len(),
                found ==> available@.contains(target),
                !found ==> forall|k: int| 0 <= k < j ==> available@[k] != target,
            decreases available@.len() - j, if found { 0int } else { 1int },
        {
            if available[j].0.0 == target.0.0 {
                found = true;
                assert(available@[j as int] == target);
            } else {
                j = j + 1;
            }
        }
        if !found {
            proof {
                if available@.contains(target) {
                    let k = choose|k: int| 0 <= k < available@.len() && available@[k] == target;
                    assert(available@[k] != target);
                }
            }
            return Some(target);
        }
        i = i + 1;
    }
    None
}

/// The outcome of checking a processor against a formula's surface.
pub open spec fn binding_check<V>(
    definition: ProcessorDefinition<V>,
    formula: FormulaId,
    surface_inputs: Seq<SurfaceItemId>,
    surface_outputs: Seq<SurfaceItemId>,
) -> Result<(), ProcessorCompileError> {
    if definition.formula != formula {
        Err(ProcessorCompileError::FormulaMismatch)
    } else {
        match first_absent(definition.inputs@.map_values(|b: ProcessorSurfaceBinding| b.target), surface_inputs) {
            Some(target) => Err(ProcessorCompileError::MissingInput(target)),
            None => match first_absent(definition.outputs@, surface_outputs) {
                Some(output) => Err(ProcessorCompileError::MissingOutput(output)),
                None => Ok(()),
            },
        }
    }
}

/// Plans processors.
#[derive(Clone, Copy, Debug, Default)]
pub struct ProcessorCompiler;

impl ProcessorCompiler {
    /// Checks that `definition` runs formula `formula` and binds only inputs
    /// and outputs of its surface.
    pub fn check_bindings<V>(
        &self,
        definition: &ProcessorDefinition<V>,
        formula: FormulaId,
        surface_inputs: &[SurfaceItemId],
        surface_outputs: &[SurfaceItemId],
    ) -> (result: Result<(), ProcessorCompileError>)
        ensures
            result == binding_check(*definition, formula, surface_inputs@, surface_outputs@),
    {
        if definition.formula.0.0 != formula.0.0 {
            return Err(ProcessorCompileError::FormulaMismatch);
        }
        let mut targets: Vec<SurfaceItemId> = Vec::new();
        let mut i: usize = 0;
        while i < definition.inputs.len()
            invariant
                i <= definition.inputs@.len(),
                targets@ == definition.inputs@.subrange(0, i as int).map_values(|b: ProcessorSurfaceBinding| b.target),
            decreases definition.inputs@.len() - i,
        {
            targets.push(definition.inputs[i].target);
            assert(targets@ =~= definition.inputs@.subrange(0, i + 1).map_values(
                |b: ProcessorSurfaceBinding| b.target,
            ));
            i = i + 1;
        }
        assert(definition.inputs@.subrange(0, definition.inputs@.len() as int) =~= definition.inputs@);
        if let Some(target) = find_absent(&targets, surface_inputs) {
            return Err(ProcessorCompileError::MissingInput(target));
        }
        if let Some(output) = find_absent(&definition.outputs, surface_outputs) {
            return Err(ProcessorCompileError::MissingOutput(output));
        }
        Ok(())
    }

    /// Lays out the context lanes of a processor and lists their keys, lane
    /// by lane.
    pub fn plan_lanes<A>(&self, axes: Vec<ContextAxis<A>>, limits: ContextLimits) -> (result: Result<
        (LaneLayout<A>, Vec<ContextKey>),
        ProcessorCompileError,
    >)
        ensures
            match result {
                Ok((layout, keys)) => {
                    &&& compile_outcome(item_counts(axis_item_ids(axes@)), limits) == Ok::<int, ContextError>(
                        layout.spec_lane_count(),
                    )
                    &&& layout.item_ids() == axis_item_ids(axes@)
                    &&& keys@.len() == layout.spec_lane_count()
                    &&& forall|lane: int|
                        0 <= lane < keys@.len() ==> (#[trigger] keys@[lane]).0@ == lane_key(layout.item_ids(), lane)
                },
                Err(error) => error matches ProcessorCompileError::Context(e) && compile_outcome(
                    item_counts(axis_item_ids(axes@)),
                    limits,
                ) == Err::<int, ContextError>(e),
            },
    {
        let layout = match LaneLayout::compile(axes, limits) {
            Ok(layout) => layout,
            Err(error) => {
                return Err(ProcessorCompileError::Context(error));
            },
        };
        let count = layout.lane_count();
        let mut keys: Vec<ContextKey> = Vec::new();
        let mut lane: usize = 0;
        while lane < count
            invariant
                lane <= count,
                count == layout.spec_lane_count(),
                keys@.len() == lane,
                forall|l: int| 0 <= l < lane ==> (#[trigger] keys@[l]).0@ == lane_key(layout.item_ids(), l),
            decreases count - lane,
        {
            match layout.key_at(lane) {
                Some(key) => keys.push(key),
                None => {
                    assert(false);
                },
            }
            lane = lane + 1;
        }
        Ok((layout, keys))
    }
}

/// The identities of a formula's surface inputs, in order.
pub open spec fn input_ids(inputs: Seq<SurfaceInput>) -> Seq<SurfaceItemId> {
    inputs.map_values(|input: SurfaceInput| input.id)
}

/// The identities of a formula's surface outputs, in order.
pub open spec fn output_ids(outputs: Seq<SurfaceOutput>) -> Seq<SurfaceItemId> {
    outputs.map_values(|output: SurfaceOutput| output.id)
}

fn surface_input_ids(inputs: &Vec<SurfaceInput>) -> (ids: Vec<SurfaceItemId>)
    ensures
        ids@ == input_ids(inputs@),
{
    let mut ids: Vec<SurfaceItemId> = Vec::new();
    let mut i: usize = 0;
    while i < inputs.len()
        invariant
            i <= inputs@.len(),
            ids@ == input_ids(inputs@.take(i as int)),
        decreases inputs@.len() - i,
    {
        ids.push(inputs[i].id);
        assert(input_ids(inputs@.take(i + 1)) =~= input_ids(inputs@.take(i as int)).push(inputs@[i as int].id));
        i = i + 1;
    }
    assert(inputs@.take(inputs@.len() as int) =~= inputs@);
    ids
}

fn surface_output_ids(outputs: &Vec<SurfaceOutput>) -> (ids: Vec<SurfaceItemId>)
    ensures
        ids@ == output_ids(outputs@),
{
    let mut ids: Vec<SurfaceItemId> = Vec::new();
    let mut i: usize = 0;
    while i < outputs.len()
        invariant
            i <= outputs@.len(),
            ids@ == output_ids(outputs@.take(i as int)),
        decreases outputs@.len() - i,
    {
        ids.push(outputs[i].id);
        assert(output_ids(outputs@.take(i + 1)) =~= output_ids(outputs@.take(i as int)).push(outputs@[i as int].id));
        i = i + 1;
    }
    assert(outputs@.take(outputs@.len() as int) =~= outputs@);
    ids
}

/// A processor ready to run: its definition, its formula's shared kernel,
/// its context lanes and their keys.
pub struct ProcessorPlan<V, A> {
    pub definition: ProcessorDefinition<V>,
    pub kernel: Arc<CompiledFormulaKernel>,
    pub lane_layout: LaneLayout<A>,
    pub lane_keys: Vec<ContextKey>,
}

impl ProcessorCompiler {
    /// Plans `definition` over `formula` and the context `axes` (already
    /// composed from their layers): its bindings are checked against the
    /// formula's surface, its lanes are laid out within `limits`, and the
    /// formula's kernel comes from `cache`.
    pub fn compile<V, A>(
        &self,
        definition: ProcessorDefinition<V>,
        formula: &AlchemistFormula,
        axes: Vec<ContextAxis<A>>,
        limits: ContextLimits,
        cache: &mut FormulaCompileCache,
        registry: &ANodeRegistry,
    ) -> (result: Result<ProcessorPlan<V, A>, ProcessorCompileError>)
        requires
            old(cache).wf(),
            formula.graph.wf(),
        ensures
            final(cache).wf(),
            result matches Ok(plan) ==> kernel_wf(*plan.kernel),
            ({
                let check = binding_check(
                    definition,
                    formula.id,
                    input_ids(formula.surface.inputs@),
                    output_ids(formula.surface.outputs@),
                );
                let lanes = compile_outcome(item_counts(axis_item_ids(axes@)), limits);
                &&& check matches Err(e) ==> result == Err::<ProcessorPlan<V, A>, ProcessorCompileError>(e)
                    && *final(cache) == *old(cache)
                &&& check is Ok ==> (lanes matches Err(e) ==> result == Err::<ProcessorPlan<V, A>, ProcessorCompileError>(
                    ProcessorCompileError::Context(e),
                ) && *final(cache) == *old(cache))
                &&& check is Ok && lanes is Ok ==> match result {
                    Ok(plan) => {
                        &&& cache_outcome(*old(cache), *final(cache), *formula, *registry, Ok(plan.kernel))
                        &&& plan.definition == definition
                        &&& plan.lane_layout.item_ids() == axis_item_ids(axes@)
                        &&& lanes == Ok::<int, ContextError>(plan.lane_layout.spec_lane_count())
                        &&& plan.lane_keys@.len() == plan.lane_layout.spec_lane_count()
                        &&& forall|lane: int|
                            0 <= lane < plan.lane_keys@.len() ==> (#[trigger] plan.lane_keys@[lane]).0@ == lane_key(
                                plan.lane_layout.item_ids(),
                                lane,
                            )
                    },
                    Err(error) => error matches ProcessorCompileError::Formula(e) && cache_outcome(
                        *old(cache),
                        *final(cache),
                        *formula,
                        *registry,
                        Err(e),
                    ),
                }
            }),
    {
        let inputs = surface_input_ids(&formula.surface.inputs);
        let outputs = surface_output_ids(&formula.surface.outputs);
        match self.check_bindings(&definition, formula.id, inputs.as_slice(), outputs.as_slice()) {
            Ok(()) => {},
            Err(error) => return Err(error),
        }
        let (lane_layout, lane_keys) = match self.plan_lanes(axes, limits) {
            Ok(planned) => planned,
            Err(error) => return Err(error),
        };
        let kernel = match cache.compile(formula, registry) {
            Ok(kernel) => kernel,
            Err(error) => return Err(ProcessorCompileError::Formula(error)),
        };
        Ok(ProcessorPlan { definition, kernel, lane_layout, lane_keys })
    }
}

#[derive(Debug)]
pub enum ProcessorRuntimeError {
    MissingLane(usize),
    /// The number of lanes of condition outcomes differs from the number of
    /// lanes.
    ConditionLaneCount { expected: usize, actual: usize },
    Formula(FormulaRuntimeError),
    Condition(ConditionRuntimeError),
}

/// Whether a lane's gate lets it run: always without a condition,
/// otherwise the condition's result over the lane's input-test `outcomes`.
pub open spec fn gate<V>(condition: Option<Arc<ConditionProgram<V>>>, outcomes: Seq<Result<bool, ConditionRuntimeError>>) -> Result<
    bool,
    ConditionRuntimeError,
> {
    match condition {
        None => Ok(true),
        Some(program) => run_program(op_shapes(program.spec_operations()), outcomes),
    }
}

/// What happened to one lane of a completed evaluation.
pub enum LaneRecord {
    /// The lane's condition came out false.
    Rejected,
    /// The lane's instance was evaluated.
    Evaluated(crate::alchemist::runtime::EvaluationReport),
}

/// The lane with instance `before` ended as `after` and `record` says what
/// happened.
pub open spec fn lane_done<V>(
    condition: Option<Arc<ConditionProgram<V>>>,
    outcomes: Seq<Result<bool, ConditionRuntimeError>>,
    before: FormulaInstance,
    after: FormulaInstance,
    capture: bool,
    results: spec_fn(FloatOperation, u64, u64) -> Option<u64>,
    record: LaneRecord,
) -> bool {
    match record {
        LaneRecord::Rejected => gate(condition, outcomes) == Ok::<bool, ConditionRuntimeError>(false) && after == before,
        LaneRecord::Evaluated(report) => gate(condition, outcomes) == Ok::<bool, ConditionRuntimeError>(true)
            && evaluation_outcome(before, after, capture, results, Ok(report)),
    }
}

/// The lane with instance `before` stopped the evaluation with `error`,
/// ending as `after`.
pub open spec fn lane_failed<V>(
    condition: Option<Arc<ConditionProgram<V>>>,
    outcomes: Seq<Result<bool, ConditionRuntimeError>>,
    before: FormulaInstance,
    after: FormulaInstance,
    capture: bool,
    results: spec_fn(FloatOperation, u64, u64) -> Option<u64>,
    error: ProcessorRuntimeError,
) -> bool {
    match gate(condition, outcomes) {
        Err(e) => error == ProcessorRuntimeError::Condition(e) && after == before,
        Ok(false) => false,
        Ok(true) => error matches ProcessorRuntimeError::Formula(e) && evaluation_outcome(
            before,
            after,
            capture,
            results,
            Err(e),
        ),
    }
}

pub open spec fn lanes_rejected(records: Seq<LaneRecord>) -> nat
    decreases records.len(),
{
    if records.len() == 0 {
        0
    } else {
        lanes_rejected(records.drop_last()) + if records.last() is Rejected {
            1nat
        } else {
            0nat
        }
    }
}

pub open spec fn lanes_executed(records: Seq<LaneRecord>) -> nat
    decreases records.len(),
{
    if records.len() == 0 {
        0
    } else {
        lanes_executed(records.drop_last()) + match records.last() {
            LaneRecord::Evaluated(report) => report.executed_operations as nat,
            LaneRecord::Rejected => 0nat,
        }
    }
}

pub open spec fn lanes_changed(records: Seq<LaneRecord>) -> nat
    decreases records.len(),
{
    if records.len() == 0 {
        0
    } else {
        lanes_changed(records.drop_last()) + match records.last() {
            LaneRecord::Evaluated(report) => if report.outputs_changed {
                1nat
            } else {
                0nat
            },
            LaneRecord::Rejected => 0nat,
        }
    }
}

/// The views of per-lane outcome lists.
pub open spec fn outcome_views(outcomes: Seq<Vec<Result<bool, ConditionRuntimeError>>>) -> Seq<Seq<Result<bool, ConditionRuntimeError>>> {
    outcomes.map_values(|lane: Vec<Result<bool, ConditionRuntimeError>>| lane@)
}

/// The input-test outcomes of lane `lane`: none are read without a
/// condition.
pub open spec fn lane_outcomes<V>(
    condition: Option<Arc<ConditionProgram<V>>>,
    outcomes: Seq<Seq<Result<bool, ConditionRuntimeError>>>,
    lane: int,
) -> Seq<Result<bool, ConditionRuntimeError>> {
    if condition is Some {
        outcomes[lane]
    } else {
        Seq::empty()
    }
}

/// The lane with instance `before` completed, ending as `after`.
pub open spec fn lane_completed<V>(
    condition: Option<Arc<ConditionProgram<V>>>,
    outcomes: Seq<Result<bool, ConditionRuntimeError>>,
    before: FormulaInstance,
    after: FormulaInstance,
    capture: bool,
    results: spec_fn(FloatOperation, u64, u64) -> Option<u64>,
) -> bool {
    exists|record: LaneRecord| #[trigger] lane_done(condition, outcomes, before, after, capture, results, record)
}

/// The lanes before `k` completed, lane `k` failed with `error`, and the
/// lanes after it were left as they were.
pub open spec fn lanes_stopped_at<V>(
    condition: Option<Arc<ConditionProgram<V>>>,
    outcomes: Seq<Seq<Result<bool, ConditionRuntimeError>>>,
    before: Seq<FormulaInstance>,
    after: Seq<FormulaInstance>,
    k: int,
    capture: bool,
    results: spec_fn(FloatOperation, u64, u64) -> Option<u64>,
    error: ProcessorRuntimeError,
) -> bool {
    &&& 0 <= k < before.len()
    &&& after.len() == before.len()
    &&& forall|i: int|
        0 <= i < k ==> #[trigger] lane_completed(
            condition,
            lane_outcomes(condition, outcomes, i),
            before[i],
            after[i],
            capture,
            results,
        )
    &&& lane_failed(condition, lane_outcomes(condition, outcomes, k), before[k], after[k], capture, results, error)
    &&& forall|i: int| k < i < before.len() ==> #[trigger] after[i] == before[i]
}

/// The instances of a processor's lanes, all evaluating its one kernel,
/// and the condition that gates each lane.
pub struct ProcessorRuntime<V> {
    kernel: Arc<CompiledFormulaKernel>,
    condition: Option<Arc<ConditionProgram<V>>>,
    lane_keys: Vec<ContextKey>,
    instances: Vec<FormulaInstance>,
}

impl<V> ProcessorRuntime<V> {
    /// Every lane's instance is well formed and evaluates the shared kernel.
    pub closed spec fn wf(&self) -> bool {
        forall|i: int|
            0 <= i < self.instances@.len() ==> (#[trigger] self.instances@[i]).wf() && self.instances@[i].spec_kernel()
                == *self.kernel
    }

    pub closed spec fn spec_kernel(&self) -> Arc<CompiledFormulaKernel> {
        self.kernel
    }

    pub closed spec fn spec_condition(&self) -> Option<Arc<ConditionProgram<V>>> {
        self.condition
    }

    pub closed spec fn spec_lane_keys(&self) -> Seq<ContextKey> {
        self.lane_keys@
    }

    pub closed spec fn spec_instances(&self) -> Seq<FormulaInstance> {
        self.instances@
    }

    /// One fresh instance of the plan's kernel per lane.
    pub fn new<A>(plan: ProcessorPlan<V, A>) -> (runtime: Self)
        requires
            kernel_wf(*plan.kernel),
        ensures
            runtime.wf(),
            runtime.spec_kernel() == plan.kernel,
            runtime.spec_condition() == plan.definition.condition,
            runtime.spec_lane_keys() == plan.lane_keys@,
            runtime.spec_instances().len() == plan.lane_layout.spec_lane_count(),
            forall|i: int|
                0 <= i < runtime.spec_instances().len() ==> (#[trigger] runtime.spec_instances()[i]).spec_first_evaluation()
                    && runtime.spec_instances()[i].spec_slots() == crate::values::value_views(
                    plan.kernel.slot_defaults@,
                ),
    {
        let count = plan.lane_layout.lane_count();
        let mut instances: Vec<FormulaInstance> = Vec::new();
        let mut lane: usize = 0;
        while lane < count
            invariant
                lane <= count,
                kernel_wf(*plan.kernel),
                instances@.len() == lane,
                forall|i: int|
                    0 <= i < lane ==> (#[trigger] instances@[i]).wf() && instances@[i].spec_kernel() == *plan.kernel
                        && instances@[i].spec_first_evaluation() && instances@[i].spec_slots()
                        == crate::values::value_views(plan.kernel.slot_defaults@),
            decreases count - lane,
        {
            instances.push(FormulaInstance::new(Arc::clone(&plan.kernel)));
            lane = lane + 1;
        }
        ProcessorRuntime {
            kernel: plan.kernel,
            condition: plan.definition.condition,
            lane_keys: plan.lane_keys,
            instances,
        }
    }

    /// The shared kernel.
    pub fn kernel(&self) -> (kernel: &Arc<CompiledFormulaKernel>)
        ensures
            *kernel == self.spec_kernel(),
    {
        &self.kernel
    }

    /// The context key of each lane.
    pub fn lane_keys(&self) -> (keys: &[ContextKey])
        ensures
            keys@ == self.spec_lane_keys(),
    {
        self.lane_keys.as_slice()
    }

    /// Sets surface input `input` of lane `lane` to `value`.
    pub fn set_input(&mut self, lane: usize, input: SurfaceItemId, value: Value) -> (result: Result<
        bool,
        ProcessorRuntimeError,
    >)
        requires
            old(self).wf(),
        ensures
            final(self).wf(),
            final(self).spec_kernel() == old(self).spec_kernel(),
            final(self).spec_condition() == old(self).spec_condition(),
            final(self).spec_lane_keys() == old(self).spec_lane_keys(),
            final(self).spec_instances().len() == old(self).spec_instances().len(),
            lane >= old(self).spec_instances().len() ==> (result matches Err(ProcessorRuntimeError::MissingLane(l))
                && l == lane) && final(self).spec_instances() == old(self).spec_instances(),
            lane < old(self).spec_instances().len() ==> forall|i: int|
                0 <= i < old(self).spec_instances().len() && i != lane ==> #[trigger] final(self).spec_instances()[i]
                    == old(self).spec_instances()[i],
            lane < old(self).spec_instances().len() ==> {
                let before = old(self).spec_instances()[lane as int];
                let after = final(self).spec_instances()[lane as int];
                let slot_index = before.spec_kernel().surface_inputs@[input.0.0].0 as int;
                &&& after.spec_kernel() == before.spec_kernel()
                &&& after.spec_first_evaluation() == before.spec_first_evaluation()
                &&& !before.spec_kernel().surface_inputs@.contains_key(input.0.0) ==> (result matches Err(
                    ProcessorRuntimeError::Formula(FormulaRuntimeError::MissingInput(id)),
                ) && id == input) && after.spec_slots() == before.spec_slots() && after.spec_dirty()
                    == before.spec_dirty()
                &&& before.spec_kernel().surface_inputs@.contains_key(input.0.0) ==> if crate::parameters::values_equal(
                    before.spec_slots()[slot_index],
                    value@,
                ) {
                    &&& result matches Ok(changed) && !changed
                    &&& after.spec_slots() == before.spec_slots()
                    &&& after.spec_dirty() == before.spec_dirty()
                } else {
                    &&& result matches Ok(changed) && changed
                    &&& after.spec_slots() == before.spec_slots().update(slot_index, value@)
                    &&& after.spec_dirty() == before.spec_dirty().update(slot_index, true)
                }
            },
    {
        if lane >= self.instances.len() {
            return Err(ProcessorRuntimeError::MissingLane(lane));
        }
        let ghost before = self.instances@;
        let outcome = self.instances[lane].set_input(input, value);
        assert(forall|i: int| 0 <= i < before.len() && i != lane ==> self.instances@[i] == before[i]);
        match outcome {
            Ok(changed) => Ok(changed),
            Err(error) => Err(ProcessorRuntimeError::Formula(error)),
        }
    }

    /// Evaluates every lane in order: a lane whose gate refuses it is
    /// counted as rejected, the others are evaluated; the first failure of a
    /// gate or an evaluation stops the run. With a condition, one list of
    /// input-test outcomes per lane is needed.
    pub fn evaluate<F: Fn(FloatOperation, u64, u64) -> Option<u64>>(
        &mut self,
        condition_outcomes: &Vec<Vec<Result<bool, ConditionRuntimeError>>>,
        options: EvaluationOptions,
        arithmetic: &F,
    ) -> (result: Result<ProcessorBatchReport, ProcessorRuntimeError>)
        requires
            old(self).wf(),
            arithmetic_is_function(*arithmetic),
            total_operations(old(self).spec_instances()) <= usize::MAX,
        ensures
            final(self).wf(),
            final(self).spec_kernel() == old(self).spec_kernel(),
            final(self).spec_condition() == old(self).spec_condition(),
            final(self).spec_lane_keys() == old(self).spec_lane_keys(),
            final(self).spec_instances().len() == old(self).spec_instances().len(),
            ({
                let lanes = old(self).spec_instances().len();
                let condition = old(self).spec_condition();
                let outcomes = outcome_views(condition_outcomes@);
                let capture = options.capture_observation;
                let results = arithmetic_results(*arithmetic);
                if condition is Some && condition_outcomes@.len() != lanes {
                    &&& result matches Err(ProcessorRuntimeError::ConditionLaneCount { expected, actual })
                    &&& expected == lanes && actual == condition_outcomes@.len()
                    &&& final(self).spec_instances() == old(self).spec_instances()
                } else {
                    match result {
                        Ok(report) => {
                            &&& report.lanes == lanes
                            &&& exists|records: Seq<LaneRecord>|
                                {
                                    &&& records.len() == lanes
                                    &&& forall|i: int|
                                        0 <= i < lanes ==> #[trigger] lane_done(
                                            condition,
                                            lane_outcomes(condition, outcomes, i),
                                            old(self).spec_instances()[i],
                                            final(self).spec_instances()[i],
                                            capture,
                                            results,
                                            records[i],
                                        )
                                    &&& report.condition_rejected == lanes_rejected(records)
                                    &&& report.executed_operations == lanes_executed(records)
                                    &&& report.outputs_changed == lanes_changed(records)
                                }
                        },
                        Err(error) => exists|k: int|
                            #[trigger] lanes_stopped_at(
                                condition,
                                outcomes,
                                old(self).spec_instances(),
                                final(self).spec_instances(),
                                k,
                                capture,
                                results,
                                error,
                            ),
                    }
                }
            }),
    {
        let count = self.instances.len();
        let gated = match &self.condition {
            Some(_) => true,
            None => false,
        };
        if gated && condition_outcomes.len() != count {
            return Err(ProcessorRuntimeError::ConditionLaneCount { expected: count, actual: condition_outcomes.len() });
        }
        let ghost starting = self.instances@;
        let ghost condition = self.condition;
        let ghost outcomes = outcome_views(condition_outcomes@);
        let ghost results = arithmetic_results(*arithmetic);
        let capture = options.capture_observation;
        let ghost mut records: Seq<LaneRecord> = Seq::empty();
        let mut rejected: usize = 0;
        let mut executed: usize = 0;
        let mut changed: usize = 0;
        let mut lane: usize = 0;
        let empty: Vec<Result<bool, ConditionRuntimeError>> = Vec::new();
        while lane < count
            invariant
                lane <= count,
                count == starting.len(),
                starting == old(self).spec_instances(),
                condition == old(self).spec_condition(),
                self.condition == condition,
                self.kernel == old(self).spec_kernel(),
                self.lane_keys@ == old(self).spec_lane_keys(),
                gated == (condition is Some),
                gated ==> condition_outcomes@.len() == count,
                outcomes == outcome_views(condition_outcomes@),
                empty@.len() == 0,
                arithmetic_is_function(*arithmetic),
                results == arithmetic_results(*arithmetic),
                capture == options.capture_observation,
                total_operations(starting) <= usize::MAX,
                self.instances@.len() == count,
                forall|j: int|
                    0 <= j < count ==> (#[trigger] self.instances@[j]).wf() && self.instances@[j].spec_kernel()
                        == *self.kernel,
                forall|j: int| lane <= j < count ==> #[trigger] self.instances@[j] == starting[j],
                records.len() == lane,
                forall|j: int|
                    0 <= j < lane ==> #[trigger] lane_done(
                        condition,
                        lane_outcomes(condition, outcomes, j),
                        starting[j],
                        self.instances@[j],
                        capture,
                        results,
                        records[j],
                    ),
                rejected == lanes_rejected(records),
                executed == lanes_executed(records),
                executed <= total_operations(starting.take(lane as int)),
                changed == lanes_changed(records),
                rejected + changed <= lane,
            decreases count - lane,
        {
            let ghost before = self.instances@;
            assert(starting.take(lane + 1).drop_last() =~= starting.take(lane as int));
            assert(records.push(LaneRecord::Rejected).drop_last() =~= records);
            let tests = if gated {
                &condition_outcomes[lane]
            } else {
                &empty
            };
            assert(tests@ == lane_outcomes(condition, outcomes, lane as int));
            let admitted = match &self.condition {
                Some(program) => program.evaluate(tests.as_slice()),
                None => Ok(true),
            };
            match admitted {
                Err(error) => {
                    proof {
                        assert forall|j: int| 0 <= j < lane implies #[trigger] lane_completed(
                            condition,
                            lane_outcomes(condition, outcomes, j),
                            starting[j],
                            self.instances@[j],
                            capture,
                            results,
                        ) by {
                            assert(lane_done(
                                condition,
                                lane_outcomes(condition, outcomes, j),
                                starting[j],
                                self.instances@[j],
                                capture,
                                results,
                                records[j],
                            ));
                        }
                        assert(lanes_stopped_at(
                            condition,
                            outcomes,
                            starting,
                            self.instances@,
                            lane as int,
                            capture,
                            results,
                            ProcessorRuntimeError::Condition(error),
                        ));
                    }
                    return Err(ProcessorRuntimeError::Condition(error));
                },
                Ok(false) => {
                    proof {
                        records = records.push(LaneRecord::Rejected);
                    }
                    rejected = rejected + 1;
                },
                Ok(true) => {
                    let outcome = self.instances[lane].evaluate(options, arithmetic);
                    assert(forall|j: int| 0 <= j < count && j != lane ==> self.instances@[j] == before[j]);
                    match outcome {
                        Ok(report) => {
                            proof {
                                lemma_executed_bound(starting[lane as int], self.instances@[lane as int], capture, results, report);
                                lemma_total_prefix(starting, lane + 1);
                                assert(records.push(LaneRecord::Evaluated(report)).drop_last() =~= records);
                                records = records.push(LaneRecord::Evaluated(report));
                            }
                            executed = executed + report.executed_operations;
                            if report.outputs_changed {
                                changed = changed + 1;
                            }
                        },
                        Err(error) => {
                            proof {
                                assert forall|j: int| 0 <= j < lane implies #[trigger] lane_completed(
                                    condition,
                                    lane_outcomes(condition, outcomes, j),
                                    starting[j],
                                    self.instances@[j],
                                    capture,
                                    results,
                                ) by {
                                    assert(lane_done(
                                        condition,
                                        lane_outcomes(condition, outcomes, j),
                                        starting[j],
                                        self.instances@[j],
                                        capture,
                                        results,
                                        records[j],
                                    ));
                                }
                                assert forall|j: int| lane < j < count implies #[trigger] self.instances@[j]
                                    == starting[j] by {
                                    assert(self.instances@[j] == before[j]);
                                }
                                assert(lanes_stopped_at(
                                    condition,
                                    outcomes,
                                    starting,
                                    self.instances@,
                                    lane as int,
                                    capture,
                                    results,
                                    ProcessorRuntimeError::Formula(error),
                                ));
                            }
                            let stopped = ProcessorRuntimeError::Formula(error);
                            assert(exists|k: int| #[trigger] lanes_stopped_at(
                                condition,
                                outcomes,
                                starting,
                                self.instances@,
                                k,
                                capture,
                                results,
                                stopped,
                            ));
                            assert(old(self).spec_condition() == condition);
                            assert(outcome_views(condition_outcomes@) == outcomes);
                            assert(old(self).spec_instances() == starting);
                            assert(self.spec_instances() == self.instances@);
                            assert(arithmetic_results(*arithmetic) == results);
                            assert(!(old(self).spec_condition() is Some && condition_outcomes@.len() != old(self).spec_instances().len()));
                            return Err(stopped);
                        },
                    }
                },
            }
            lane = lane + 1;
        }
        Ok(ProcessorBatchReport { lanes: count, condition_rejected: rejected, executed_operations: executed, outputs_changed: changed })
    }

    /// The value of surface output `output` in lane `lane`.
    pub fn output(&self, lane: usize, output: SurfaceItemId) -> (result: Result<&Value, ProcessorRuntimeError>)
        requires
            self.wf(),
        ensures
            lane >= self.spec_instances().len() ==> (result matches Err(ProcessorRuntimeError::MissingLane(l))
                && l == lane),
            lane < self.spec_instances().len() ==> {
                let instance = self.spec_instances()[lane as int];
                match result {
                    Ok(value) => instance.spec_kernel().surface_outputs@.contains_key(output.0.0) && value@
                        == instance.spec_slots()[instance.spec_kernel().surface_outputs@[output.0.0].0 as int],
                    Err(error) => !instance.spec_kernel().surface_outputs@.contains_key(output.0.0) && (error matches ProcessorRuntimeError::Formula(
                        FormulaRuntimeError::MissingOutput(id),
                    ) && id == output),
                }
            },
    {
        if lane >= self.instances.len() {
            return Err(ProcessorRuntimeError::MissingLane(lane));
        }
        match self.instances[lane].output(output) {
            Ok(value) => Ok(value),
            Err(error) => Err(ProcessorRuntimeError::Formula(error)),
        }
    }
}

/// Totals over one batch of lanes.
#[derive(Clone, Copy, Debug, Default, PartialEq, Eq, Structural)]
pub struct ProcessorBatchReport {
    pub lanes: usize,
    pub condition_rejected: usize,
    pub executed_operations: usize,
    pub outputs_changed: usize,
}

/// The formulas every host ships for its processors.
pub struct BuiltinFormulaAssets;

/// A double input named `name`, labelled `label`, defaulting to zero.
pub open spec fn double_input(input: SingleNodeInputSpec, name: Seq<char>, label: Seq<char>) -> bool {
    &&& input.name@ == name
    &&& input.label@ == label
    &&& input.value_type@ == "float"@
    &&& input.default == Value::Float(0)
}

/// The boolean input `condition`, labelled `Condition`, defaulting to true.
pub open spec fn gate_input(input: SingleNodeInputSpec) -> bool {
    &&& input.name@ == "condition"@
    &&& input.label@ == "Condition"@
    &&& input.value_type@ == "bool"@
    &&& input.default == Value::Bool(true)
}

/// The one node of a built-in formula: of type `node_type`, its inputs
/// those the specification lists, one double output named `output`.
pub open spec fn builtin_shape(formula: AlchemistFormula, node_type: Seq<char>, inputs: Seq<SingleNodeInputSpec>) -> bool {
    exists|node: GraphNode<AlchemistGraphDomain>|
        {
            &&& formula.graph@.nodes == Map::<u128, GraphNode<AlchemistGraphDomain>>::empty().insert(node.id.key(), node)
            &&& node.data.node_type.0@ == node_type
            &&& node.data.inputs@.len() == inputs.len()
            &&& formula.surface.inputs@.len() == inputs.len()
            &&& forall|i: int|
                0 <= i < inputs.len() ==> {
                    &&& (#[trigger] node.data.inputs@[i]).name == inputs[i].name
                    &&& node.data.inputs@[i].value_type == inputs[i].value_type
                    &&& formula.surface.inputs@[i].target == (PortRef { node: node.id, port: node.data.inputs@[i].id })
                    &&& formula.surface.inputs@[i].default == inputs[i].default
                }
            &&& node.data.outputs@.len() == 1
            &&& node.data.outputs@[0].name@ == "output"@
            &&& node.data.outputs@[0].value_type@ == "float"@
            &&& formula.surface.outputs@.len() == 1
            &&& formula.surface.outputs@[0].source == (PortRef { node: node.id, port: node.data.outputs@[0].id })
        }
}

fn float_input(name: &str, label: &str) -> (input: SingleNodeInputSpec)
    ensures
        double_input(input, name@, label@),
{
    proof {
        reveal_strlit("float");
    }
    SingleNodeInputSpec {
        name: String::from_str(name),
        label: String::from_str(label),
        value_type: String::from_str("float"),
        default: Value::Float(0),
    }
}

fn float_output() -> (output: SingleNodeOutputSpec)
    ensures
        output.name@ == "output"@,
        output.label@ == "Output"@,
        output.value_type@ == "float"@,
{
    proof {
        reveal_strlit("output");
        reveal_strlit("Output");
        reveal_strlit("float");
    }
    SingleNodeOutputSpec {
        name: String::from_str("output"),
        label: String::from_str("Output"),
        value_type: String::from_str("float"),
    }
}

impl BuiltinFormulaAssets {
    /// The identity of the built-in Action formula.
    pub fn action_formula_id() -> (id: FormulaId)
        ensures
            id.0.0 == 0xa11c_7100_0000_0000_0000_0000_0000_0001u128,
    {
        FormulaId(EntityId(0xa11c_7100_0000_0000_0000_0000_0000_0001u128))
    }

    /// The identity of the built-in Mapping formula.
    pub fn mapping_formula_id() -> (id: FormulaId)
        ensures
            id.0.0 == 0xa11c_7100_0000_0000_0000_0000_0000_0002u128,
    {
        FormulaId(EntityId(0xa11c_7100_0000_0000_0000_0000_0000_0002u128))
    }

    /// The Action formula: one pass-through node from a double input
    /// `value` to a double output.
    pub fn action() -> (formula: AlchemistFormula)
        ensures
            formula.id.0.0 == 0xa11c_7100_0000_0000_0000_0000_0000_0001u128,
            formula.metadata.name@ == "Action"@,
            formula.graph.wf(),
            exists|value: SingleNodeInputSpec|
                #[trigger] double_input(value, "value"@, "Value"@) && builtin_shape(
                    formula,
                    "pass_through"@,
                    seq![value],
                ),
    {
        proof {
            reveal_strlit("Action");
            reveal_strlit("pass_through");
        }
        let value = float_input("value", "Value");
        let ghost value_spec = value;
        let mut tags: Vec<String> = Vec::new();
        tags.push(String::from_str("built-in"));
        tags.push(String::from_str("processor"));
        let mut inputs: Vec<SingleNodeInputSpec> = Vec::new();
        inputs.push(value);
        let mut outputs: Vec<SingleNodeOutputSpec> = Vec::new();
        outputs.push(float_output());
        let spec = SingleNodeFormulaSpec {
            id: BuiltinFormulaAssets::action_formula_id(),
            name: String::from_str("Action"),
            description: String::from_str("Built-in Action processor formula"),
            tags,
            node_type: ANodeTypeId(String::from_str("pass_through")),
            inputs,
            outputs,
        };
        let ghost listed = spec.inputs@;
        assert(listed =~= seq![value_spec]);
        let formula = build_single_node_formula(spec);
        assert(builtin_shape(formula, "pass_through"@, seq![value_spec]));
        formula
    }

    /// The Mapping formula: one condition gate from a boolean input
    /// `condition` (defaulting to true) and a double input `value` to a
    /// double output.
    pub fn mapping() -> (formula: AlchemistFormula)
        ensures
            formula.id.0.0 == 0xa11c_7100_0000_0000_0000_0000_0000_0002u128,
            formula.metadata.name@ == "Mapping"@,
            formula.graph.wf(),
            exists|condition: SingleNodeInputSpec, value: SingleNodeInputSpec|
                {
                    &&& #[trigger] gate_input(condition)
                    &&& #[trigger] double_input(value, "value"@, "Value"@)
                    &&& builtin_shape(formula, "condition_gate"@, seq![condition, value])
                },
    {
        proof {
            reveal_strlit("Mapping");
            reveal_strlit("condition_gate");
            reveal_strlit("condition");
            reveal_strlit("Condition");
            reveal_strlit("bool");
        }
        let condition = SingleNodeInputSpec {
            name: String::from_str("condition"),
            label: String::from_str("Condition"),
            value_type: String::from_str("bool"),
            default: Value::Bool(true),
        };
        let ghost condition_spec = condition;
        assert(gate_input(condition_spec));
        let value = float_input("value", "Value");
        let ghost value_spec = value;
        let mut tags: Vec<String> = Vec::new();
        tags.push(String::from_str("built-in"));
        tags.push(String::from_str("processor"));
        let mut inputs: Vec<SingleNodeInputSpec> = Vec::new();
        inputs.push(condition);
        inputs.push(value);
        let mut outputs: Vec<SingleNodeOutputSpec> = Vec::new();
        outputs.push(float_output());
        let spec = SingleNodeFormulaSpec {
            id: BuiltinFormulaAssets::mapping_formula_id(),
            name: String::from_str("Mapping"),
            description: String::from_str("Built-in Mapping processor formula"),
            tags,
            node_type: ANodeTypeId(String::from_str("condition_gate")),
            inputs,
            outputs,
        };
        let ghost listed = spec.inputs@;
        assert(listed =~= seq![condition_spec, value_spec]);
        let formula = build_single_node_formula(spec);
        assert(builtin_shape(formula, "condition_gate"@, seq![condition_spec, value_spec]));
        formula
    }
}

} // verus!
