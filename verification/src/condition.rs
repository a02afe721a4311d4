//! Authored predicates compiled once into a compact postfix stack program.
//!
//! A condition is a tree of literals, input tests and boolean groups. It is
//! compiled into a flat program for a stack machine. Evaluating an input
//! test (truthiness or a comparison of a host value) is the host's part:
//! the program is run over the outcomes of its input tests, in program
//! order. Running the compiled program gives what evaluating the tree does.

use vstd::prelude::*;
use crate::text::strings_equal;
use crate::values::{truthy, value_truthy, Value};

verus! {

/// The name of a condition input.
#[derive(Debug, PartialEq, Eq)]
pub struct ConditionInputId(pub String);

impl ConditionInputId {
    /// A copy of this input name.
    pub fn duplicate(&self) -> (copy: Self)
        ensures
            copy == *self,
    {
        ConditionInputId(self.0.clone())
    }
}

#[derive(Clone, Copy, Debug, PartialEq, Eq, Structural)]
pub enum Comparison {
    Equal,
    NotEqual,
    Less,
    LessOrEqual,
    Greater,
    GreaterOrEqual,
}

/// An authored condition over host values of type `V`.
#[derive(Debug)]
pub enum ConditionExpr<V> {
    Literal(bool),
    Truthy(ConditionInputId),
    Compare { input: ConditionInputId, comparison: Comparison, expected: V },
    Not(Box<ConditionExpr<V>>),
    All(Vec<ConditionExpr<V>>),
    Any(Vec<ConditionExpr<V>>),
}

/// One instruction of a compiled condition.
#[derive(Debug)]
pub enum ConditionOp<V> {
    /// Pushes a constant.
    Push(bool),
    /// Pushes whether an input is truthy.
    Truthy(ConditionInputId),
    /// Pushes the outcome of comparing an input with a value.
    Compare { input: ConditionInputId, comparison: Comparison, expected: V },
    /// Negates the top of the stack.
    Not,
    /// Replaces the top `n` values with their conjunction.
    All(u32),
    /// Replaces the top `n` values with their disjunction.
    Any(u32),
}

#[derive(Debug, PartialEq, Eq)]
pub enum ConditionCompileError {
    /// A group has more terms than an instruction can count.
    TooManyTerms,
}

#[derive(Debug, PartialEq, Eq)]
pub enum ConditionRuntimeError {
    /// An input the condition reads is absent.
    MissingInput(ConditionInputId),
    /// The compared values have no order.
    NotOrderable,
    /// The program does not leave exactly one value, or runs short.
    InvalidProgram,
}

impl ConditionRuntimeError {
    /// A copy of this error.
    pub fn duplicate(&self) -> (copy: Self)
        ensures
            copy == *self,
    {
        match self {
            ConditionRuntimeError::MissingInput(input) => ConditionRuntimeError::MissingInput(input.duplicate()),
            ConditionRuntimeError::NotOrderable => ConditionRuntimeError::NotOrderable,
            ConditionRuntimeError::InvalidProgram => ConditionRuntimeError::InvalidProgram,
        }
    }
}

/// An instruction without the host value it compares with.
pub enum OpShape {
    Push(bool),
    Truthy(Seq<char>),
    Compare(Seq<char>, Comparison),
    Not,
    All(u32),
    Any(u32),
}

pub open spec fn op_shape<V>(op: ConditionOp<V>) -> OpShape {
    match op {
        ConditionOp::Push(b) => OpShape::Push(b),
        ConditionOp::Truthy(input) => OpShape::Truthy(input.0@),
        ConditionOp::Compare { input, comparison, .. } => OpShape::Compare(input.0@, comparison),
        ConditionOp::Not => OpShape::Not,
        ConditionOp::All(n) => OpShape::All(n),
        ConditionOp::Any(n) => OpShape::Any(n),
    }
}

pub open spec fn op_shapes<V>(ops: Seq<ConditionOp<V>>) -> Seq<OpShape> {
    ops.map_values(|op: ConditionOp<V>| op_shape(op))
}

/// Whether every group of `e` has at most `u32::MAX` terms.
pub open spec fn groups_fit<V>(e: ConditionExpr<V>) -> bool
    decreases e, 0nat,
{
    match e {
        ConditionExpr::Not(inner) => groups_fit(*inner),
        ConditionExpr::All(es) => es@.len() <= u32::MAX && all_groups_fit(es@),
        ConditionExpr::Any(es) => es@.len() <= u32::MAX && all_groups_fit(es@),
        _ => true,
    }
}

pub open spec fn all_groups_fit<V>(es: Seq<ConditionExpr<V>>) -> bool
    decreases es, es.len(),
{
    if es.len() == 0 {
        true
    } else {
        all_groups_fit(es.subrange(0, es.len() - 1)) && groups_fit(es[es.len() - 1])
    }
}

/// The postfix program of `e`: terms before the operator that combines
/// them, empty groups as their identity.
pub open spec fn emit_shapes<V>(e: ConditionExpr<V>) -> Seq<OpShape>
    decreases e, 0nat,
{
    match e {
        ConditionExpr::Literal(b) => seq![OpShape::Push(b)],
        ConditionExpr::Truthy(input) => seq![OpShape::Truthy(input.0@)],
        ConditionExpr::Compare { input, comparison, .. } => seq![OpShape::Compare(input.0@, comparison)],
        ConditionExpr::Not(inner) => emit_shapes(*inner).push(OpShape::Not),
        ConditionExpr::All(es) => if es@.len() == 0 {
            seq![OpShape::Push(true)]
        } else {
            emit_all_shapes(es@).push(OpShape::All(es@.len() as u32))
        },
        ConditionExpr::Any(es) => if es@.len() == 0 {
            seq![OpShape::Push(false)]
        } else {
            emit_all_shapes(es@).push(OpShape::Any(es@.len() as u32))
        },
    }
}

/// The programs of `es`, one after the other.
pub open spec fn emit_all_shapes<V>(es: Seq<ConditionExpr<V>>) -> Seq<OpShape>
    decreases es, es.len(),
{
    if es.len() == 0 {
        Seq::empty()
    } else {
        emit_all_shapes(es.subrange(0, es.len() - 1)) + emit_shapes(es[es.len() - 1])
    }
}

/// The value that each instruction of `ops` compares with, if it compares.
pub open spec fn expected_of<V>(ops: Seq<ConditionOp<V>>) -> Seq<Option<V>> {
    ops.map_values(
        |op: ConditionOp<V>|
            match op {
                ConditionOp::Compare { expected, .. } => Some(expected),
                _ => None,
            },
    )
}

/// The value that each instruction of the program of `e` compares with, if
/// it compares: position by position with `emit_shapes`.
pub open spec fn emit_expected<V>(e: ConditionExpr<V>) -> Seq<Option<V>>
    decreases e, 0nat,
{
    match e {
        ConditionExpr::Compare { expected, .. } => seq![Some(expected)],
        ConditionExpr::Not(inner) => emit_expected(*inner).push(None),
        ConditionExpr::All(es) => if es@.len() == 0 {
            seq![None]
        } else {
            emit_all_expected(es@).push(None)
        },
        ConditionExpr::Any(es) => if es@.len() == 0 {
            seq![None]
        } else {
            emit_all_expected(es@).push(None)
        },
        _ => seq![None],
    }
}

pub open spec fn emit_all_expected<V>(es: Seq<ConditionExpr<V>>) -> Seq<Option<V>>
    decreases es, es.len(),
{
    if es.len() == 0 {
        Seq::empty()
    } else {
        emit_all_expected(es.subrange(0, es.len() - 1)) + emit_expected(es[es.len() - 1])
    }
}

/// Position by position, `copies` holds a clone of each value of
/// `sources`, and nothing where they hold nothing.
pub open spec fn clones_of<V: Clone>(sources: Seq<Option<V>>, copies: Seq<Option<V>>) -> bool {
    &&& sources.len() == copies.len()
    &&& forall|i: int|
        0 <= i < sources.len() ==> match (#[trigger] sources[i], copies[i]) {
            (Some(a), Some(b)) => cloned(a, b),
            (None, None) => true,
            _ => false,
        }
}

proof fn lemma_clones_concat<V: Clone>(a1: Seq<Option<V>>, b1: Seq<Option<V>>, a2: Seq<Option<V>>, b2: Seq<Option<V>>)
    requires
        clones_of(a1, b1),
        clones_of(a2, b2),
    ensures
        clones_of(a1 + a2, b1 + b2),
{
    assert forall|i: int| 0 <= i < (a1 + a2).len() implies match (#[trigger] (a1 + a2)[i], (b1 + b2)[i]) {
        (Some(a), Some(b)) => cloned(a, b),
        (None, None) => true,
        _ => false,
    } by {
        if i < a1.len() {
            assert((a1 + a2)[i] == a1[i]);
            assert((b1 + b2)[i] == b1[i]);
        } else {
            assert((a1 + a2)[i] == a2[i - a1.len()]);
            assert((b1 + b2)[i] == b2[i - a1.len()]);
        }
    }
}

/// The deepest the stack gets while `e` runs on top of `base` values.
pub open spec fn peak_depth<V>(e: ConditionExpr<V>, base: nat) -> nat
    decreases e, 0nat,
{
    match e {
        ConditionExpr::Not(inner) => peak_depth(*inner, base),
        ConditionExpr::All(es) => if es@.len() == 0 {
            base + 1
        } else {
            peak_all_depth(es@, base)
        },
        ConditionExpr::Any(es) => if es@.len() == 0 {
            base + 1
        } else {
            peak_all_depth(es@, base)
        },
        _ => base + 1,
    }
}

/// The deepest the stack gets while `es` run one after the other on top of
/// `base` values, each leaving one value.
pub open spec fn peak_all_depth<V>(es: Seq<ConditionExpr<V>>, base: nat) -> nat
    decreases es, es.len(),
{
    if es.len() == 0 {
        base
    } else {
        let before = peak_all_depth(es.subrange(0, es.len() - 1), base);
        let last = peak_depth(es[es.len() - 1], (base + es.len() - 1) as nat);
        if before >= last {
            before
        } else {
            last
        }
    }
}

/// Whether every value is true.
pub open spec fn all_true(values: Seq<bool>) -> bool {
    forall|i: int| 0 <= i < values.len() ==> #[trigger] values[i]
}

/// Whether some value is true.
pub open spec fn any_true(values: Seq<bool>) -> bool {
    exists|i: int| 0 <= i < values.len() && #[trigger] values[i]
}

/// The machine's state: its stack and how many input outcomes it consumed.
pub type MachineState = Result<(Seq<bool>, nat), ConditionRuntimeError>;

/// One instruction, given the outcomes of the input tests in order.
pub open spec fn step(op: OpShape, outcomes: Seq<Result<bool, ConditionRuntimeError>>, state: MachineState) -> MachineState {
    match state {
        Err(e) => Err(e),
        Ok((stack, used)) => match op {
            OpShape::Push(b) => Ok((stack.push(b), used)),
            OpShape::Truthy(_) | OpShape::Compare(_, _) => if used < outcomes.len() {
                match outcomes[used as int] {
                    Ok(b) => Ok((stack.push(b), used + 1)),
                    Err(e) => Err(e),
                }
            } else {
                Err(ConditionRuntimeError::InvalidProgram)
            },
            OpShape::Not => if stack.len() > 0 {
                Ok((stack.drop_last().push(!stack.last()), used))
            } else {
                Err(ConditionRuntimeError::InvalidProgram)
            },
            OpShape::All(n) => if n <= stack.len() {
                Ok(
                    (
                        stack.subrange(0, stack.len() - n).push(
                            all_true(stack.subrange(stack.len() - n, stack.len() as int)),
                        ),
                        used,
                    ),
                )
            } else {
                Err(ConditionRuntimeError::InvalidProgram)
            },
            OpShape::Any(n) => if n <= stack.len() {
                Ok(
                    (
                        stack.subrange(0, stack.len() - n).push(
                            any_true(stack.subrange(stack.len() - n, stack.len() as int)),
                        ),
                        used,
                    ),
                )
            } else {
                Err(ConditionRuntimeError::InvalidProgram)
            },
        },
    }
}

/// The instructions run in order from `state`.
pub open spec fn run_ops(ops: Seq<OpShape>, outcomes: Seq<Result<bool, ConditionRuntimeError>>, state: MachineState) -> MachineState
    decreases ops.len(),
{
    if ops.len() == 0 {
        state
    } else {
        step(ops.last(), outcomes, run_ops(ops.drop_last(), outcomes, state))
    }
}

/// What a program computes: the single value it leaves on the stack.
pub open spec fn run_program(ops: Seq<OpShape>, outcomes: Seq<Result<bool, ConditionRuntimeError>>) -> Result<
    bool,
    ConditionRuntimeError,
> {
    match run_ops(ops, outcomes, Ok((Seq::empty(), 0))) {
        Err(e) => Err(e),
        Ok((stack, _)) => if stack.len() == 1 {
            Ok(stack[0])
        } else {
            Err(ConditionRuntimeError::InvalidProgram)
        },
    }
}

/// Evaluates `e` directly, reading the outcomes of its input tests from
/// `used` on, left to right; also how many it read in all.
pub open spec fn eval_expr<V>(
    e: ConditionExpr<V>,
    outcomes: Seq<Result<bool, ConditionRuntimeError>>,
    used: nat,
) -> Result<(bool, nat), ConditionRuntimeError>
    decreases e, 0nat,
{
    match e {
        ConditionExpr::Literal(b) => Ok((b, used)),
        ConditionExpr::Truthy(_) | ConditionExpr::Compare { .. } => if used < outcomes.len() {
            match outcomes[used as int] {
                Ok(b) => Ok((b, used + 1)),
                Err(e) => Err(e),
            }
        } else {
            Err(ConditionRuntimeError::InvalidProgram)
        },
        ConditionExpr::Not(inner) => match eval_expr(*inner, outcomes, used) {
            Ok((b, next)) => Ok((!b, next)),
            Err(e) => Err(e),
        },
        ConditionExpr::All(es) => match eval_all(es@, outcomes, used) {
            Ok((values, next)) => Ok((all_true(values), next)),
            Err(e) => Err(e),
        },
        ConditionExpr::Any(es) => match eval_all(es@, outcomes, used) {
            Ok((values, next)) => Ok((any_true(values), next)),
            Err(e) => Err(e),
        },
    }
}

/// Evaluates every term of a group, left to right.
pub open spec fn eval_all<V>(
    es: Seq<ConditionExpr<V>>,
    outcomes: Seq<Result<bool, ConditionRuntimeError>>,
    used: nat,
) -> Result<(Seq<bool>, nat), ConditionRuntimeError>
    decreases es, es.len(),
{
    if es.len() == 0 {
        Ok((Seq::empty(), used))
    } else {
        match eval_all(es.subrange(0, es.len() - 1), outcomes, used) {
            Err(e) => Err(e),
            Ok((values, next)) => match eval_expr(es[es.len() - 1], outcomes, next) {
                Err(e) => Err(e),
                Ok((b, last)) => Ok((values.push(b), last)),
            },
        }
    }
}

/// The result of evaluating `e` directly.
pub open spec fn evaluate_expr<V>(e: ConditionExpr<V>, outcomes: Seq<Result<bool, ConditionRuntimeError>>) -> Result<
    bool,
    ConditionRuntimeError,
> {
    match eval_expr(e, outcomes, 0) {
        Ok((b, _)) => Ok(b),
        Err(err) => Err(err),
    }
}

/// Once the machine has failed it stays failed.
pub proof fn lemma_run_failed(ops: Seq<OpShape>, outcomes: Seq<Result<bool, ConditionRuntimeError>>, error: ConditionRuntimeError)
    ensures
        run_ops(ops, outcomes, Err(error)) == Err::<(Seq<bool>, nat), ConditionRuntimeError>(error),
    decreases ops.len(),
{
    if ops.len() > 0 {
        lemma_run_failed(ops.drop_last(), outcomes, error);
    }
}

/// Running two programs one after the other runs their concatenation.
pub proof fn lemma_run_concat(
    first: Seq<OpShape>,
    second: Seq<OpShape>,
    outcomes: Seq<Result<bool, ConditionRuntimeError>>,
    state: MachineState,
)
    ensures
        run_ops(first + second, outcomes, state) == run_ops(second, outcomes, run_ops(first, outcomes, state)),
    decreases second.len(),
{
    if second.len() == 0 {
        assert(first + second =~= first);
    } else {
        lemma_run_concat(first, second.drop_last(), outcomes, state);
        assert((first + second).drop_last() =~= first + second.drop_last());
        assert((first + second).last() == second.last());
    }
}

proof fn lemma_eval_all_length<V>(
    es: Seq<ConditionExpr<V>>,
    outcomes: Seq<Result<bool, ConditionRuntimeError>>,
    used: nat,
)
    ensures
        eval_all(es, outcomes, used) matches Ok((values, _)) ==> values.len() == es.len(),
    decreases es.len(),
{
    if es.len() > 0 {
        lemma_eval_all_length(es.subrange(0, es.len() - 1), outcomes, used);
    }
}

/// Running the program of `e` on top of `stack` pushes what evaluating `e`
/// gives, or fails as it does.
proof fn lemma_emit_runs<V>(
    e: ConditionExpr<V>,
    outcomes: Seq<Result<bool, ConditionRuntimeError>>,
    stack: Seq<bool>,
    used: nat,
)
    requires
        groups_fit(e),
    ensures
        run_ops(emit_shapes(e), outcomes, Ok((stack, used))) == match eval_expr(e, outcomes, used) {
            Ok((b, next)) => Ok((stack.push(b), next)),
            Err(error) => Err::<(Seq<bool>, nat), ConditionRuntimeError>(error),
        },
    decreases e, 0nat, 0nat,
{
    let start: MachineState = Ok((stack, used));
    match e {
        ConditionExpr::Literal(b) => {
            assert(seq![OpShape::Push(b)].drop_last() =~= Seq::<OpShape>::empty());
            assert(run_ops(Seq::<OpShape>::empty(), outcomes, start) == start);
            assert(run_ops(emit_shapes(e), outcomes, start) == step(OpShape::Push(b), outcomes, start));
        },
        ConditionExpr::Truthy(input) => {
            assert(seq![OpShape::Truthy(input.0@)].drop_last() =~= Seq::<OpShape>::empty());
        },
        ConditionExpr::Compare { input, comparison, .. } => {
            assert(seq![OpShape::Compare(input.0@, comparison)].drop_last() =~= Seq::<OpShape>::empty());
        },
        ConditionExpr::Not(inner) => {
            lemma_emit_runs(*inner, outcomes, stack, used);
            assert(emit_shapes(e).drop_last() =~= emit_shapes(*inner));
            if let Ok((b, next)) = eval_expr(*inner, outcomes, used) {
                assert(stack.push(b).drop_last().push(!b) =~= stack.push(!b));
            }
        },
        ConditionExpr::All(es) => {
            lemma_group_runs(es@, outcomes, stack, used, true);
        },
        ConditionExpr::Any(es) => {
            lemma_group_runs(es@, outcomes, stack, used, false);
        },
    }
}

/// A group's program pushes the conjunction (or disjunction) of its terms.
proof fn lemma_group_runs<V>(
    es: Seq<ConditionExpr<V>>,
    outcomes: Seq<Result<bool, ConditionRuntimeError>>,
    stack: Seq<bool>,
    used: nat,
    conjunction: bool,
)
    requires
        es.len() <= u32::MAX,
        all_groups_fit(es),
    ensures
        ({
            let ops = if es.len() == 0 {
                seq![OpShape::Push(conjunction)]
            } else if conjunction {
                emit_all_shapes(es).push(OpShape::All(es.len() as u32))
            } else {
                emit_all_shapes(es).push(OpShape::Any(es.len() as u32))
            };
            run_ops(ops, outcomes, Ok((stack, used))) == match eval_all(es, outcomes, used) {
                Ok((values, next)) => Ok(
                    (stack.push(if conjunction { all_true(values) } else { any_true(values) }), next),
                ),
                Err(error) => Err::<(Seq<bool>, nat), ConditionRuntimeError>(error),
            }
        }),
    decreases es, es.len(), 2nat,
{
    if es.len() == 0 {
        assert(seq![OpShape::Push(conjunction)].drop_last() =~= Seq::<OpShape>::empty());
        assert(run_ops(Seq::<OpShape>::empty(), outcomes, Ok((stack, used))) == Ok::<(Seq<bool>, nat), ConditionRuntimeError>((stack, used)));
        assert(all_true(Seq::<bool>::empty()));
        assert(!any_true(Seq::<bool>::empty()));
    } else {
        lemma_emit_all_runs(es, outcomes, stack, used);
        lemma_eval_all_length(es, outcomes, used);
        let body = emit_all_shapes(es);
        let op = if conjunction { OpShape::All(es.len() as u32) } else { OpShape::Any(es.len() as u32) };
        assert(body.push(op).drop_last() =~= body);
        assert(run_ops(body.push(op), outcomes, Ok((stack, used))) == step(op, outcomes, run_ops(body, outcomes, Ok((stack, used)))));
        if let Ok((values, next)) = eval_all(es, outcomes, used) {
            let whole = stack + values;
            assert(whole.subrange(0, whole.len() - es.len()) =~= stack);
            assert(whole.subrange(whole.len() - es.len(), whole.len() as int) =~= values);
        }
    }
}

/// The programs of `es` run one after the other push the values of the
/// terms, or fail as the first failing term does.
proof fn lemma_emit_all_runs<V>(
    es: Seq<ConditionExpr<V>>,
    outcomes: Seq<Result<bool, ConditionRuntimeError>>,
    stack: Seq<bool>,
    used: nat,
)
    requires
        all_groups_fit(es),
    ensures
        run_ops(emit_all_shapes(es), outcomes, Ok((stack, used))) == match eval_all(es, outcomes, used) {
            Ok((values, next)) => Ok((stack + values, next)),
            Err(error) => Err::<(Seq<bool>, nat), ConditionRuntimeError>(error),
        },
    decreases es, es.len(), 1nat,
{
    if es.len() == 0 {
        assert(stack + Seq::<bool>::empty() =~= stack);
    } else {
        let init = es.subrange(0, es.len() - 1);
        let last = es[es.len() - 1];
        lemma_emit_all_runs(init, outcomes, stack, used);
        lemma_run_concat(emit_all_shapes(init), emit_shapes(last), outcomes, Ok((stack, used)));
        match eval_all(init, outcomes, used) {
            Err(error) => {
                lemma_run_failed(emit_shapes(last), outcomes, error);
            },
            Ok((values, next)) => {
                lemma_emit_runs(last, outcomes, stack + values, next);
                if let Ok((b, after)) = eval_expr(last, outcomes, next) {
                    assert((stack + values).push(b) =~= stack + values.push(b));
                }
            },
        }
    }
}

/// The compiled program of a condition computes what evaluating the
/// condition directly computes, for every outcome of its input tests.
pub proof fn lemma_compiled_program_agrees<V>(
    e: ConditionExpr<V>,
    outcomes: Seq<Result<bool, ConditionRuntimeError>>,
)
    requires
        groups_fit(e),
    ensures
        run_program(emit_shapes(e), outcomes) == evaluate_expr(e, outcomes),
{
    lemma_emit_runs(e, outcomes, Seq::empty(), 0);
    if let Ok((b, next)) = eval_expr(e, outcomes, 0) {
        assert(Seq::<bool>::empty().push(b)[0] == b);
    }
}

/// A compiled condition.
#[derive(Debug)]
pub struct ConditionProgram<V> {
    operations: Vec<ConditionOp<V>>,
    maximum_stack: usize,
}

/// Compiles conditions into stack programs.
#[derive(Clone, Copy, Debug, Default)]
pub struct ConditionCompiler;

pub open spec fn max_nat(a: nat, b: nat) -> nat {
    if a >= b {
        a
    } else {
        b
    }
}

/// Appends the program of `expression` to `operations`, tracking the stack
/// depth it reaches.
fn emit<V: Clone>(
    expression: &ConditionExpr<V>,
    operations: &mut Vec<ConditionOp<V>>,
    depth: &mut usize,
    maximum_stack: &mut usize,
) -> (result: Result<(), ConditionCompileError>)
    requires
        *old(depth) <= old(operations)@.len(),
        *old(depth) <= *old(maximum_stack),
    ensures
        result is Ok <==> groups_fit(*expression),
        final(operations)@.subrange(0, old(operations)@.len() as int) == old(operations)@,
        old(operations)@.len() <= final(operations)@.len(),
        result is Ok ==> clones_of(
            emit_expected(*expression),
            expected_of(final(operations)@.skip(old(operations)@.len() as int)),
        ),
        result is Ok ==> {
            &&& op_shapes(final(operations)@) == op_shapes(old(operations)@) + emit_shapes(*expression)
            &&& *final(depth) == *old(depth) + 1
            &&& *final(depth) <= final(operations)@.len()
            &&& *final(maximum_stack) == max_nat(
                *old(maximum_stack) as nat,
                peak_depth(*expression, *old(depth) as nat),
            )
        },
    decreases expression,
{
    let ghost before = operations@;
    match expression {
        ConditionExpr::Literal(value) => {
            operations.push(ConditionOp::Push(*value));
            assert(expected_of(operations@.skip(before.len() as int)) =~= seq![None]);
        },
        ConditionExpr::Truthy(input) => {
            operations.push(ConditionOp::Truthy(input.duplicate()));
            assert(expected_of(operations@.skip(before.len() as int)) =~= seq![None]);
        },
        ConditionExpr::Compare { input, comparison, expected } => {
            let copy = expected.clone();
            operations.push(ConditionOp::Compare { input: input.duplicate(), comparison: *comparison, expected: copy });
            assert(expected_of(operations@.skip(before.len() as int)) =~= seq![Some(copy)]);
            assert(cloned(*expected, copy));
        },
        ConditionExpr::Not(inner) => {
            let result = emit(&**inner, operations, depth, maximum_stack);
            if result.is_err() {
                return result;
            }
            let ghost middle = operations@;
            operations.push(ConditionOp::Not);
            assert(op_shapes(operations@) =~= op_shapes(middle).push(OpShape::Not));
            assert(op_shapes(operations@) =~= op_shapes(before) + emit_shapes(*expression));
            assert(operations@.subrange(0, before.len() as int) =~= before) by {
                assert(operations@.subrange(0, before.len() as int) =~= middle.subrange(0, before.len() as int));
            }
            proof {
                assert(expected_of(operations@.skip(before.len() as int)) =~= expected_of(
                    middle.skip(before.len() as int),
                ) + seq![None::<V>]);
                lemma_clones_concat(
                    emit_expected(**inner),
                    expected_of(middle.skip(before.len() as int)),
                    seq![None::<V>],
                    seq![None::<V>],
                );
                assert(emit_expected(**inner) + seq![None::<V>] =~= emit_expected(*expression));
            }
            return Ok(());
        },
        ConditionExpr::All(expressions) | ConditionExpr::Any(expressions) => {
            let conjunction = match expression {
                ConditionExpr::All(_) => true,
                _ => false,
            };
            let n = expressions.len();
            if n == 0 {
                operations.push(ConditionOp::Push(conjunction));
                assert(expected_of(operations@.skip(before.len() as int)) =~= seq![None]);
            } else {
                let ghost start_depth = *depth as nat;
                let ghost start_maximum = *maximum_stack as nat;
                let mut i: usize = 0;
                assert(expressions@.subrange(0, 0) =~= Seq::<ConditionExpr<V>>::empty());
                while i < n
                    invariant
                        i <= n,
                        n == expressions@.len(),
                        *depth == start_depth + i,
                        *expression == ConditionExpr::All(*expressions) || *expression == ConditionExpr::Any(
                            *expressions,
                        ),
                        *depth <= operations@.len(),
                        *depth <= *maximum_stack,
                        start_depth <= start_maximum,
                        op_shapes(operations@) == op_shapes(before) + emit_all_shapes(expressions@.subrange(0, i as int)),
                        operations@.subrange(0, before.len() as int) == before,
                        before.len() <= operations@.len(),
                        before == old(operations)@,
                        clones_of(
                            emit_all_expected(expressions@.subrange(0, i as int)),
                            expected_of(operations@.skip(before.len() as int)),
                        ),
                        all_groups_fit(expressions@.subrange(0, i as int)),
                        *maximum_stack == max_nat(
                            start_maximum,
                            peak_all_depth(expressions@.subrange(0, i as int), start_depth),
                        ),
                    decreases n - i,
                {
                    let ghost middle = operations@;
                    proof {
                        match expression {
                            ConditionExpr::All(es) => {
                                assert(decreases_to!(*expression => *es));
                            },
                            ConditionExpr::Any(es) => {
                                assert(decreases_to!(*expression => *es));
                            },
                            _ => {},
                        }
                        assert(decreases_to!(*expressions => expressions@));
                        assert(decreases_to!(expressions@ => expressions@[i as int]));
                        lemma_peak_above_base(expressions@[i as int], *depth as nat);
                    }
                    let result = emit(&expressions[i], operations, depth, maximum_stack);
                    proof {
                        let taken = expressions@.subrange(0, i + 1);
                        assert(taken.subrange(0, i as int) =~= expressions@.subrange(0, i as int));
                        assert(taken[i as int] == expressions@[i as int]);
                        assert(operations@.subrange(0, before.len() as int) =~= middle.subrange(0, before.len() as int));
                        if result.is_ok() {
                            assert(op_shapes(operations@) =~= op_shapes(before) + emit_all_shapes(taken));
                            assert(expected_of(operations@.skip(before.len() as int)) =~= expected_of(
                                middle.skip(before.len() as int),
                            ) + expected_of(operations@.skip(middle.len() as int)));
                            lemma_clones_concat(
                                emit_all_expected(expressions@.subrange(0, i as int)),
                                expected_of(middle.skip(before.len() as int)),
                                emit_expected(expressions@[i as int]),
                                expected_of(operations@.skip(middle.len() as int)),
                            );
                        }
                    }
                    if result.is_err() {
                        proof {
                            lemma_fits_prefix(expressions@, i as int + 1);
                            assert(middle.subrange(0, before.len() as int) == before);
                            assert(operations@.subrange(0, middle.len() as int) == middle);
                            assert(operations@.subrange(0, before.len() as int) =~= before);
                        }
                        return result;
                    }
                    i = i + 1;
                }
                assert(expressions@.subrange(0, n as int) =~= expressions@);
                if n > 4294967295 {
                    return Err(ConditionCompileError::TooManyTerms);
                }
                let count = n as u32;
                *depth = *depth - (n - 1);
                let ghost middle = operations@;
                if conjunction {
                    operations.push(ConditionOp::All(count));
                } else {
                    operations.push(ConditionOp::Any(count));
                }
                assert(op_shapes(operations@) =~= op_shapes(middle).push(op_shape(operations@.last())));
                assert(op_shapes(operations@) =~= op_shapes(before) + emit_shapes(*expression));
                assert(operations@.subrange(0, before.len() as int) =~= middle.subrange(0, before.len() as int));
                proof {
                    assert(expected_of(operations@.skip(before.len() as int)) =~= expected_of(
                        middle.skip(before.len() as int),
                    ) + seq![None::<V>]);
                    lemma_clones_concat(
                        emit_all_expected(expressions@),
                        expected_of(middle.skip(before.len() as int)),
                        seq![None::<V>],
                        seq![None::<V>],
                    );
                    assert(emit_all_expected(expressions@) + seq![None::<V>] =~= emit_expected(*expression));
                }
                return Ok(());
            }
        },
    }
    assert(op_shapes(operations@) =~= op_shapes(before) + emit_shapes(*expression));
    let length = operations.len();
    assert(*depth < length);
    proof {
        if let ConditionExpr::All(es) = expression {
            assert(es@.len() == 0);
            assert(all_groups_fit(es@));
        }
        if let ConditionExpr::Any(es) = expression {
            assert(es@.len() == 0);
            assert(all_groups_fit(es@));
        }
    }
    *depth = *depth + 1;
    if *maximum_stack < *depth {
        *maximum_stack = *depth;
    }
    Ok(())
}

/// Running a condition leaves at least one more value on the stack.
proof fn lemma_peak_above_base<V>(e: ConditionExpr<V>, base: nat)
    ensures
        peak_depth(e, base) >= base + 1,
    decreases e, 0nat,
{
    match e {
        ConditionExpr::Not(inner) => {
            lemma_peak_above_base(*inner, base);
        },
        ConditionExpr::All(es) => {
            if es@.len() > 0 {
                lemma_peak_all_above_base(es@, base);
            }
        },
        ConditionExpr::Any(es) => {
            if es@.len() > 0 {
                lemma_peak_all_above_base(es@, base);
            }
        },
        _ => {},
    }
}

proof fn lemma_peak_all_above_base<V>(es: Seq<ConditionExpr<V>>, base: nat)
    ensures
        peak_all_depth(es, base) >= base + es.len(),
    decreases es, es.len(),
{
    if es.len() > 0 {
        lemma_peak_all_above_base(es.subrange(0, es.len() - 1), base);
        lemma_peak_above_base(es[es.len() - 1], (base + es.len() - 1) as nat);
    }
}

/// A group whose first `i` terms do not all fit does not fit.
proof fn lemma_fits_prefix<V>(es: Seq<ConditionExpr<V>>, i: int)
    requires
        0 <= i <= es.len(),
        !all_groups_fit(es.subrange(0, i)),
    ensures
        !all_groups_fit(es),
    decreases es.len() - i,
{
    if i < es.len() {
        assert(es.subrange(0, i + 1).subrange(0, i) =~= es.subrange(0, i));
        lemma_fits_prefix(es, i + 1);
    } else {
        assert(es.subrange(0, i) =~= es);
    }
}

impl ConditionCompiler {
    /// Compiles `expression` into a postfix program; refused when a group
    /// has more terms than an instruction can count.
    pub fn compile<V: Clone>(&self, expression: &ConditionExpr<V>) -> (result: Result<ConditionProgram<V>, ConditionCompileError>)
        ensures
            result is Ok <==> groups_fit(*expression),
            result matches Ok(program) ==> op_shapes(program.spec_operations()) == emit_shapes(*expression)
                && program.spec_maximum_stack() == peak_depth(*expression, 0)
                && clones_of(emit_expected(*expression), expected_of(program.spec_operations())),
            result matches Err(error) ==> error == ConditionCompileError::TooManyTerms,
    {
        let mut operations: Vec<ConditionOp<V>> = Vec::new();
        let mut depth: usize = 0;
        let mut maximum_stack: usize = 0;
        assert(op_shapes(operations@) =~= Seq::<OpShape>::empty());
        match emit(expression, &mut operations, &mut depth, &mut maximum_stack) {
            Ok(()) => {
                assert(Seq::<OpShape>::empty() + emit_shapes(*expression) =~= emit_shapes(*expression));
                assert(operations@.skip(0) =~= operations@);
                Ok(ConditionProgram { operations, maximum_stack })
            },
            Err(error) => Err(error),
        }
    }
}

impl<V> ConditionProgram<V> {
    pub closed spec fn spec_operations(&self) -> Seq<ConditionOp<V>> {
        self.operations@
    }

    pub closed spec fn spec_maximum_stack(&self) -> nat {
        self.maximum_stack as nat
    }

    /// The program's instructions.
    pub fn operations(&self) -> (operations: &[ConditionOp<V>])
        ensures
            operations@ == self.spec_operations(),
    {
        self.operations.as_slice()
    }

    /// The deepest the stack gets while the program runs.
    pub fn maximum_stack(&self) -> (depth: usize)
        ensures
            depth == self.spec_maximum_stack(),
    {
        self.maximum_stack
    }

    /// Runs the program over the outcomes of its input tests, given in
    /// program order.
    pub fn evaluate(&self, outcomes: &[Result<bool, ConditionRuntimeError>]) -> (result: Result<
        bool,
        ConditionRuntimeError,
    >)
        ensures
            result == run_program(op_shapes(self.spec_operations()), outcomes@),
    {
        let ghost shapes = op_shapes(self.operations@);
        let mut stack: Vec<bool> = Vec::new();
        let mut used: usize = 0;
        let mut i: usize = 0;
        let n = self.operations.len();
        assert(shapes.subrange(0, 0) =~= Seq::<OpShape>::empty());
        while i < n
            invariant
                i <= n,
                n == self.operations@.len(),
                shapes == op_shapes(self.operations@),
                used <= outcomes@.len(),
                run_ops(shapes.subrange(0, i as int), outcomes@, Ok((Seq::empty(), 0))) == Ok::<
                    (Seq<bool>, nat),
                    ConditionRuntimeError,
                >((stack@, used as nat)),
            decreases n - i,
        {
            let ghost state: MachineState = Ok((stack@, used as nat));
            let ghost next_prefix = shapes.subrange(0, i + 1);
            proof {
                assert(next_prefix.drop_last() =~= shapes.subrange(0, i as int));
                assert(next_prefix.last() == op_shape(self.operations@[i as int]));
            }
            let failure = match &self.operations[i] {
                ConditionOp::Push(value) => {
                    stack.push(*value);
                    None
                },
                ConditionOp::Truthy(_) | ConditionOp::Compare { .. } => {
                    if used < outcomes.len() {
                        match &outcomes[used] {
                            Ok(value) => {
                                stack.push(*value);
                                used = used + 1;
                                None
                            },
                            Err(error) => Some(error.duplicate()),
                        }
                    } else {
                        Some(ConditionRuntimeError::InvalidProgram)
                    }
                },
                ConditionOp::Not => {
                    match stack.pop() {
                        Some(value) => {
                            stack.push(!value);
                            None
                        },
                        None => Some(ConditionRuntimeError::InvalidProgram),
                    }
                },
                ConditionOp::All(count) => {
                    match reduce(&mut stack, *count, true) {
                        Ok(()) => None,
                        Err(error) => Some(error),
                    }
                },
                ConditionOp::Any(count) => {
                    match reduce(&mut stack, *count, false) {
                        Ok(()) => None,
                        Err(error) => Some(error),
                    }
                },
            };
            match failure {
                Some(error) => {
                    proof {
                        assert(run_ops(next_prefix, outcomes@, Ok((Seq::empty(), 0))) == Err::<
                            (Seq<bool>, nat),
                            ConditionRuntimeError,
                        >(error));
                        let rest = shapes.subrange(i + 1, n as int);
                        lemma_run_concat(next_prefix, rest, outcomes@, Ok((Seq::empty(), 0)));
                        lemma_run_failed(rest, outcomes@, error);
                        assert(next_prefix + rest =~= shapes);
                    }
                    return Err(error);
                },
                None => {},
            }
            i = i + 1;
        }
        assert(shapes.subrange(0, n as int) =~= shapes);
        if stack.len() == 1 {
            Ok(stack[0])
        } else {
            Err(ConditionRuntimeError::InvalidProgram)
        }
    }
}

/// Replaces the top `count` values of `stack` with their conjunction (or
/// disjunction); refused when the stack is shorter.
pub fn reduce(stack: &mut Vec<bool>, count: u32, conjunction: bool) -> (result: Result<(), ConditionRuntimeError>)
    ensures
        count <= old(stack)@.len() ==> result is Ok && final(stack)@ == old(stack)@.subrange(
            0,
            old(stack)@.len() - count,
        ).push(
            if conjunction {
                all_true(old(stack)@.subrange(old(stack)@.len() - count, old(stack)@.len() as int))
            } else {
                any_true(old(stack)@.subrange(old(stack)@.len() - count, old(stack)@.len() as int))
            },
        ),
        count > old(stack)@.len() ==> result == Err::<(), ConditionRuntimeError>(
            ConditionRuntimeError::InvalidProgram,
        ) && final(stack)@ == old(stack)@,
{
    let ghost initial = stack@;
    let count = count as usize;
    if count > stack.len() {
        return Err(ConditionRuntimeError::InvalidProgram);
    }
    let len = stack.len();
    let mut taken: usize = 0;
    let mut acc = conjunction;
    while taken < count
        invariant
            taken <= count <= len,
            len == initial.len(),
            stack@ == initial.subrange(0, len - taken),
            conjunction ==> acc == all_true(initial.subrange(len - taken, len as int)),
            !conjunction ==> acc == any_true(initial.subrange(len - taken, len as int)),
        decreases count - taken,
    {
        let ghost tail = initial.subrange(len - taken, len as int);
        let ghost longer = initial.subrange(len - taken - 1, len as int);
        let value = match stack.pop() {
            Some(value) => value,
            None => {
                assert(false);
                return Err(ConditionRuntimeError::InvalidProgram);
            },
        };
        proof {
            assert(longer[0] == value);
            assert(longer.subrange(1, longer.len() as int) =~= tail);
            if conjunction {
                if all_true(longer) {
                    assert forall|j: int| 0 <= j < tail.len() implies #[trigger] tail[j] by {
                        assert(tail[j] == longer[j + 1]);
                    }
                }
                if value && all_true(tail) {
                    assert forall|j: int| 0 <= j < longer.len() implies #[trigger] longer[j] by {
                        if j > 0 {
                            assert(longer[j] == tail[j - 1]);
                        }
                    }
                }
            } else {
                if any_true(tail) {
                    let j = choose|j: int| 0 <= j < tail.len() && #[trigger] tail[j];
                    assert(longer[j + 1] == tail[j]);
                }
                if any_true(longer) {
                    let j = choose|j: int| 0 <= j < longer.len() && #[trigger] longer[j];
                    if j > 0 {
                        assert(tail[j - 1] == longer[j]);
                    }
                }
            }
        }
        acc = if conjunction {
            acc && value
        } else {
            acc || value
        };
        taken = taken + 1;
    }
    stack.push(acc);
    Ok(())
}

/// The input tests of `ops`, in program order.
pub open spec fn input_tests<V>(ops: Seq<ConditionOp<V>>) -> Seq<ConditionOp<V>>
    decreases ops.len(),
{
    if ops.len() == 0 {
        Seq::empty()
    } else {
        match ops.last() {
            ConditionOp::Truthy(_) => input_tests(ops.drop_last()).push(ops.last()),
            ConditionOp::Compare { .. } => input_tests(ops.drop_last()).push(ops.last()),
            _ => input_tests(ops.drop_last()),
        }
    }
}

/// The value of the first input named `name`.
pub open spec fn input_value(inputs: Seq<(String, Value)>, name: Seq<char>) -> Option<Value>
    decreases inputs.len(),
{
    if inputs.len() == 0 {
        None
    } else if inputs[0].0@ == name {
        Some(inputs[0].1)
    } else {
        input_value(inputs.drop_first(), name)
    }
}

/// Whether `outcome` is the outcome of the input test `test` over `inputs`:
/// a missing input fails the test; a present one is tested for truthiness,
/// or compared with the expected value by `compare`.
pub open spec fn test_outcome<C: Fn(&Value, &Value, Comparison) -> Result<bool, ConditionRuntimeError>>(
    compare: C,
    inputs: Seq<(String, Value)>,
    test: ConditionOp<Value>,
    outcome: Result<bool, ConditionRuntimeError>,
) -> bool {
    match test {
        ConditionOp::Truthy(input) => match input_value(inputs, input.0@) {
            None => outcome == Err::<bool, ConditionRuntimeError>(ConditionRuntimeError::MissingInput(input)),
            Some(value) => outcome == Ok::<bool, ConditionRuntimeError>(value_truthy(value@)),
        },
        ConditionOp::Compare { input, comparison, expected } => match input_value(inputs, input.0@) {
            None => outcome == Err::<bool, ConditionRuntimeError>(ConditionRuntimeError::MissingInput(input)),
            Some(value) => call_ensures(compare, (&value, &expected, comparison), outcome),
        },
        _ => false,
    }
}

/// The value of the first input named `name`.
fn find_input<'a>(inputs: &'a Vec<(String, Value)>, name: &String) -> (found: Option<&'a Value>)
    ensures
        match found {
            Some(value) => input_value(inputs@, name@) == Some(*value),
            None => input_value(inputs@, name@) is None,
        },
{
    let mut i: usize = 0;
    assert(inputs@.skip(0) =~= inputs@);
    while i < inputs.len()
        invariant
            i <= inputs@.len(),
            input_value(inputs@.skip(i as int), name@) == input_value(inputs@, name@),
        decreases inputs@.len() - i,
    {
        assert(inputs@.skip(i as int)[0] == inputs@[i as int]);
        if strings_equal(inputs[i].0.as_str(), name.as_str()) {
            return Some(&inputs[i].1);
        }
        assert(inputs@.skip(i as int).drop_first() =~= inputs@.skip(i as int + 1));
        i = i + 1;
    }
    None
}

/// The outcome of each input test of `program` over the named `inputs`, in
/// program order: the outcomes that `evaluate` runs the program over.
/// `compare` compares an input's value with the expected one.
pub fn input_outcomes<C>(program: &ConditionProgram<Value>, inputs: &Vec<(String, Value)>, compare: C) -> (outcomes: Vec<
    Result<bool, ConditionRuntimeError>,
>) where C: Fn(&Value, &Value, Comparison) -> Result<bool, ConditionRuntimeError>
    requires
        forall|a: &Value, b: &Value, c: Comparison| call_requires(compare, (a, b, c)),
    ensures
        outcomes@.len() == input_tests(program.spec_operations()).len(),
        forall|i: int|
            0 <= i < outcomes@.len() ==> test_outcome(
                compare,
                inputs@,
                input_tests(program.spec_operations())[i],
                #[trigger] outcomes@[i],
            ),
{
    let operations = program.operations();
    let ghost ops = operations@;
    let mut outcomes: Vec<Result<bool, ConditionRuntimeError>> = Vec::new();
    let mut i: usize = 0;
    assert(ops.take(0) =~= Seq::<ConditionOp<Value>>::empty());
    while i < operations.len()
        invariant
            i <= ops.len(),
            ops == operations@,
            ops == program.spec_operations(),
            forall|a: &Value, b: &Value, c: Comparison| call_requires(compare, (a, b, c)),
            outcomes@.len() == input_tests(ops.take(i as int)).len(),
            forall|m: int|
                0 <= m < outcomes@.len() ==> test_outcome(
                    compare,
                    inputs@,
                    input_tests(ops.take(i as int))[m],
                    #[trigger] outcomes@[m],
                ),
        decreases ops.len() - i,
    {
        let ghost before = outcomes@;
        let ghost prefix = ops.take(i as int);
        assert(ops.take(i as int + 1).drop_last() =~= prefix);
        assert(ops.take(i as int + 1).last() == ops[i as int]);
        match &operations[i] {
            ConditionOp::Truthy(input) => {
                let outcome = match find_input(inputs, &input.0) {
                    None => Err(ConditionRuntimeError::MissingInput(input.duplicate())),
                    Some(value) => Ok(truthy(value)),
                };
                outcomes.push(outcome);
            },
            ConditionOp::Compare { input, comparison, expected } => {
                let outcome = match find_input(inputs, &input.0) {
                    None => Err(ConditionRuntimeError::MissingInput(input.duplicate())),
                    Some(value) => compare(value, expected, *comparison),
                };
                outcomes.push(outcome);
            },
            _ => {},
        }
        proof {
            let tests = input_tests(ops.take(i as int + 1));
            assert forall|m: int| 0 <= m < outcomes@.len() implies test_outcome(
                compare,
                inputs@,
                tests[m],
                #[trigger] outcomes@[m],
            ) by {
                if m < before.len() {
                    assert(outcomes@[m] == before[m]);
                    assert(tests[m] == input_tests(prefix)[m]);
                }
            }
        }
        i = i + 1;
    }
    assert(ops.take(ops.len() as int) =~= ops);
    outcomes
}

} // verus!
