//! App-agnostic endpoint lifecycle: policy validation, an event-driven
//! reconnect state machine with exponentially growing but bounded retry
//! delays, and bounded ingress queues.

use std::collections::VecDeque;
use vstd::prelude::*;

verus! {

/// What a full ingress queue does with a new value.
#[derive(Clone, Copy, Debug, PartialEq, Eq, Structural)]
pub enum IngressPolicy {
    /// Refuse the new value.
    Lossless,
    /// Drop the oldest queued value to make room.
    LatestWins,
}

/// Retry timing of a reconnecting endpoint.
#[derive(Clone, Copy, Debug, PartialEq, Eq, Structural)]
pub struct RecoveryPolicy {
    pub initial_delay_ms: u64,
    pub maximum_delay_ms: u64,
    pub multiplier: u32,
}

#[derive(Clone, Copy, Debug, PartialEq, Eq, Structural)]
pub enum EndpointPolicyError {
    EmptyId,
    ZeroQueueCapacity,
    InvalidRecoveryPolicy,
}

#[derive(Clone, Copy, Debug, PartialEq, Eq, Structural)]
pub enum IngressError {
    Full,
}

/// The description of an endpoint policy error.
pub open spec fn policy_error_text(error: EndpointPolicyError) -> Seq<char> {
    match error {
        EndpointPolicyError::EmptyId => "endpoint identifier cannot be empty"@,
        EndpointPolicyError::ZeroQueueCapacity => "endpoint queue capacity must be non-zero"@,
        EndpointPolicyError::InvalidRecoveryPolicy => "recovery delays and multiplier are invalid"@,
    }
}

impl EndpointPolicyError {
    /// Human-readable description of the error.
    pub fn message(&self) -> (text: &'static str)
        ensures
            text@ == policy_error_text(*self),
    {
        match self {
            EndpointPolicyError::EmptyId => "endpoint identifier cannot be empty",
            EndpointPolicyError::ZeroQueueCapacity => "endpoint queue capacity must be non-zero",
            EndpointPolicyError::InvalidRecoveryPolicy => "recovery delays and multiplier are invalid",
        }
    }
}

impl IngressError {
    /// Human-readable description of the error.
    pub fn message(&self) -> (text: &'static str)
        ensures
            text@ == "lossless ingress queue is full"@,
    {
        "lossless ingress queue is full"
    }
}

/// A recovery policy is usable when the first delay is positive, the maximum
/// is not below it and the multiplier is at least one.
pub open spec fn recovery_policy_valid(policy: RecoveryPolicy) -> bool {
    &&& policy.initial_delay_ms != 0
    &&& policy.maximum_delay_ms >= policy.initial_delay_ms
    &&& policy.multiplier >= 1
}

impl RecoveryPolicy {
    pub fn validate(self) -> (result: Result<Self, EndpointPolicyError>)
        ensures
            recovery_policy_valid(self) ==> result == Ok::<Self, EndpointPolicyError>(self),
            !recovery_policy_valid(self) ==> result == Err::<Self, EndpointPolicyError>(
                EndpointPolicyError::InvalidRecoveryPolicy,
            ),
    {
        if self.initial_delay_ms == 0 || self.maximum_delay_ms < self.initial_delay_ms || self.multiplier < 1 {
            return Err(EndpointPolicyError::InvalidRecoveryPolicy);
        }
        Ok(self)
    }

    /// 250 ms first retry, doubling up to 30 s.
    pub fn default_policy() -> (policy: Self)
        ensures
            policy.initial_delay_ms == 250,
            policy.maximum_delay_ms == 30_000,
            policy.multiplier == 2,
            recovery_policy_valid(policy),
    {
        RecoveryPolicy { initial_delay_ms: 250, maximum_delay_ms: 30_000, multiplier: 2 }
    }
}

impl Default for RecoveryPolicy {
    fn default() -> (policy: Self)
        ensures
            policy.initial_delay_ms == 250,
            policy.maximum_delay_ms == 30_000,
            policy.multiplier == 2,
    {
        RecoveryPolicy::default_policy()
    }
}

/// Full description of one endpoint.
#[derive(Clone, Debug)]
pub struct EndpointPolicy {
    pub id: String,
    pub queue_capacity: usize,
    pub ingress: IngressPolicy,
    pub recovery: RecoveryPolicy,
}

impl EndpointPolicy {
    pub fn validate(&self) -> (result: Result<(), EndpointPolicyError>)
        ensures
            self.id@.len() == 0 ==> result == Err::<(), EndpointPolicyError>(EndpointPolicyError::EmptyId),
            self.id@.len() != 0 && self.queue_capacity == 0 ==> result == Err::<(), EndpointPolicyError>(
                EndpointPolicyError::ZeroQueueCapacity,
            ),
            self.id@.len() != 0 && self.queue_capacity != 0 ==> (result is Ok <==> recovery_policy_valid(
                self.recovery,
            )),
            self.id@.len() != 0 && self.queue_capacity != 0 && !recovery_policy_valid(self.recovery) ==> result
                == Err::<(), EndpointPolicyError>(EndpointPolicyError::InvalidRecoveryPolicy),
    {
        if self.id.as_str().unicode_len() == 0 {
            return Err(EndpointPolicyError::EmptyId);
        }
        if self.queue_capacity == 0 {
            return Err(EndpointPolicyError::ZeroQueueCapacity);
        }
        match self.recovery.validate() {
            Ok(_) => Ok(()),
            Err(error) => Err(error),
        }
    }
}

/// Connection lifecycle of one endpoint.
#[derive(Clone, Copy, Debug, PartialEq, Eq, Structural)]
pub enum ConnectionState {
    Disconnected,
    Connecting { attempt: u32 },
    Connected { since_ms: u64 },
    WaitingToRetry { attempt: u32, retry_at_ms: u64 },
    Stopped,
}

/// `b` raised to `e`.
pub open spec fn power(b: nat, e: nat) -> nat
    decreases e,
{
    if e == 0 {
        1
    } else {
        b * power(b, (e - 1) as nat)
    }
}

/// `value` clamped to the largest `u64`.
pub open spec fn saturate_u64(value: int) -> int {
    if value > u64::MAX {
        u64::MAX as int
    } else {
        value
    }
}

/// Delay before retry number `attempt + 1`, after attempt `attempt` failed:
/// `initial * multiplier^(attempt - 1)` (the exponent capped at 31), computed
/// with saturation and capped at the policy's maximum.
pub open spec fn retry_delay(policy: RecoveryPolicy, attempt: u32) -> int {
    let exponent: nat = if attempt == 0 { 0 } else if attempt - 1 > 31 { 31 } else { (attempt - 1) as nat };
    let growth = saturate_u64(power(policy.multiplier as nat, exponent) as int);
    let delay = saturate_u64(policy.initial_delay_ms * growth);
    if delay < policy.maximum_delay_ms {
        delay
    } else {
        policy.maximum_delay_ms as int
    }
}

/// The attempt number that a disconnect in `state` belongs to, if a
/// disconnect there schedules a retry.
pub open spec fn failed_attempt(state: ConnectionState) -> Option<u32> {
    match state {
        ConnectionState::Connecting { attempt } => Some(attempt),
        ConnectionState::Connected { .. } => Some(1),
        _ => None,
    }
}

fn saturating_mul_u64(a: u64, b: u64) -> (product: u64)
    ensures
        product == saturate_u64(a * b),
{
    if a == 0 {
        return 0;
    }
    if b > u64::MAX / a {
        assert(a * b > u64::MAX) by (nonlinear_arith)
            requires
                a > 0,
                b > u64::MAX / a,
        ;
        u64::MAX
    } else {
        assert(a * b <= u64::MAX) by (nonlinear_arith)
            requires
                a > 0,
                b <= u64::MAX / a,
        ;
        a * b
    }
}

proof fn lemma_saturated_step(p: nat, b: nat)
    ensures
        saturate_u64(saturate_u64(p as int) * b) == saturate_u64((p * b) as int),
{
    if p > u64::MAX {
        if b == 0 {
        } else {
            assert(p * b >= p) by (nonlinear_arith)
                requires
                    b >= 1,
            ;
            assert((u64::MAX as int) * b >= u64::MAX) by (nonlinear_arith)
                requires
                    b >= 1,
            ;
        }
    }
}

fn saturating_pow_u64(base: u64, exponent: u32) -> (result: u64)
    ensures
        result == saturate_u64(power(base as nat, exponent as nat) as int),
{
    let mut result: u64 = 1;
    let mut i: u32 = 0;
    while i < exponent
        invariant
            i <= exponent,
            result == saturate_u64(power(base as nat, i as nat) as int),
        decreases exponent - i,
    {
        proof {
            lemma_saturated_step(power(base as nat, i as nat), base as nat);
            assert(power(base as nat, (i + 1) as nat) == base * power(base as nat, i as nat));
            assert(power(base as nat, i as nat) * base == base * power(base as nat, i as nat)) by (
            nonlinear_arith);
        }
        result = saturating_mul_u64(result, base);
        i = i + 1;
    }
    result
}

/// Event-driven reconnect state machine. Time only enters through the
/// timestamps that callers pass in.
pub struct RecoveryStateMachine {
    policy: RecoveryPolicy,
    state: ConnectionState,
}

impl RecoveryStateMachine {
    #[verifier::type_invariant]
    spec fn policy_is_valid(self) -> bool {
        recovery_policy_valid(self.policy)
    }

    /// The current lifecycle state.
    pub closed spec fn current(&self) -> ConnectionState {
        self.state
    }

    /// The policy the machine was created with.
    pub closed spec fn recovery_policy(&self) -> RecoveryPolicy {
        self.policy
    }

    pub fn new(policy: RecoveryPolicy) -> (result: Result<Self, EndpointPolicyError>)
        ensures
            recovery_policy_valid(policy) <==> (result is Ok),
            match result {
                Ok(machine) => machine.current() == ConnectionState::Disconnected
                    && machine.recovery_policy() == policy,
                Err(error) => error == EndpointPolicyError::InvalidRecoveryPolicy,
            },
    {
        match policy.validate() {
            Ok(policy) => Ok(RecoveryStateMachine { policy, state: ConnectionState::Disconnected }),
            Err(error) => Err(error),
        }
    }

    pub fn state(&self) -> (state: ConnectionState)
        ensures
            state == self.current(),
    {
        self.state
    }

    /// Starts a connection attempt from `Disconnected` (attempt 1) or from
    /// `WaitingToRetry` (the scheduled attempt). Refused in any other state.
    pub fn begin_connect(&mut self) -> (started: bool)
        ensures
            final(self).recovery_policy() == old(self).recovery_policy(),
            started <==> (old(self).current() is Disconnected || old(self).current() is WaitingToRetry),
            old(self).current() is Disconnected ==> final(self).current() == (ConnectionState::Connecting {
                attempt: 1,
            }),
            (match old(self).current() {
                ConnectionState::WaitingToRetry { attempt, .. } => final(self).current()
                    == (ConnectionState::Connecting { attempt }),
                _ => true,
            }),
            !started ==> final(self).current() == old(self).current(),
    {
        let attempt = match self.state {
            ConnectionState::Disconnected => 1,
            ConnectionState::WaitingToRetry { attempt, .. } => attempt,
            _ => return false,
        };
        proof {
            use_type_invariant(&*self);
        }
        self.state = ConnectionState::Connecting { attempt };
        true
    }

    /// Records an established connection at `now_ms`.
    pub fn connected(&mut self, now_ms: u64)
        ensures
            final(self).recovery_policy() == old(self).recovery_policy(),
            final(self).current() == (ConnectionState::Connected { since_ms: now_ms }),
    {
        proof {
            use_type_invariant(&*self);
        }
        self.state = ConnectionState::Connected { since_ms: now_ms };
    }

    /// Records a lost or failed connection at `now_ms` and schedules the next
    /// attempt after the policy's delay. Only `Connecting` and `Connected`
    /// react; every other state is left as it is.
    pub fn disconnected(&mut self, now_ms: u64) -> (scheduled: bool)
        ensures
            final(self).recovery_policy() == old(self).recovery_policy(),
            scheduled <==> (failed_attempt(old(self).current()) is Some),
            !scheduled ==> final(self).current() == old(self).current(),
            scheduled ==> ({
                let attempt = failed_attempt(old(self).current())->0;
                final(self).current() == (ConnectionState::WaitingToRetry {
                    attempt: if attempt == u32::MAX { u32::MAX } else { (attempt + 1) as u32 },
                    retry_at_ms: saturate_u64(now_ms + retry_delay(old(self).recovery_policy(), attempt))
                        as u64,
                })
            }),
    {
        proof {
            use_type_invariant(&*self);
        }
        let attempt = match self.state {
            ConnectionState::Connecting { attempt } => attempt,
            ConnectionState::Connected { .. } => 1,
            ConnectionState::Stopped => return false,
            ConnectionState::Disconnected | ConnectionState::WaitingToRetry { .. } => return false,
        };
        let reduced = attempt.saturating_sub(1);
        let exponent = if reduced < 31 { reduced } else { 31 };
        let growth = saturating_pow_u64(self.policy.multiplier as u64, exponent);
        let product = saturating_mul_u64(self.policy.initial_delay_ms, growth);
        let delay = if product < self.policy.maximum_delay_ms { product } else { self.policy.maximum_delay_ms };
        self.state = ConnectionState::WaitingToRetry {
            attempt: attempt.saturating_add(1),
            retry_at_ms: now_ms.saturating_add(delay),
        };
        true
    }

    /// Whether a scheduled retry is due at `now_ms`.
    pub fn retry_due(&self, now_ms: u64) -> (due: bool)
        ensures
            due <==> (match self.current() {
                ConnectionState::WaitingToRetry { retry_at_ms, .. } => now_ms >= retry_at_ms,
                _ => false,
            }),
    {
        match self.state {
            ConnectionState::WaitingToRetry { retry_at_ms, .. } => now_ms >= retry_at_ms,
            _ => false,
        }
    }

    /// Stops the endpoint for good.
    pub fn stop(&mut self)
        ensures
            final(self).recovery_policy() == old(self).recovery_policy(),
            final(self).current() == ConnectionState::Stopped,
    {
        proof {
            use_type_invariant(&*self);
        }
        self.state = ConnectionState::Stopped;
    }
}

/// Every retry delay of a valid policy lies between the first delay and the
/// policy's maximum: recovery backs off but never beyond its bound.
pub proof fn lemma_retry_delay_bounded(policy: RecoveryPolicy, attempt: u32)
    requires
        recovery_policy_valid(policy),
    ensures
        policy.initial_delay_ms <= retry_delay(policy, attempt) <= policy.maximum_delay_ms,
{
    let exponent: nat = if attempt == 0 { 0 } else if attempt - 1 > 31 { 31 } else { (attempt - 1) as nat };
    lemma_power_positive(policy.multiplier as nat, exponent);
    let growth = saturate_u64(power(policy.multiplier as nat, exponent) as int);
    assert(growth >= 1);
    assert(policy.initial_delay_ms * growth >= policy.initial_delay_ms) by (nonlinear_arith)
        requires
            growth >= 1,
    ;
}

/// Retry delays never shrink from one failed attempt to the next.
pub proof fn lemma_retry_delay_monotonic(policy: RecoveryPolicy, attempt: u32)
    requires
        recovery_policy_valid(policy),
        attempt < u32::MAX,
    ensures
        retry_delay(policy, attempt) <= retry_delay(policy, (attempt + 1) as u32),
{
    let e1: nat = if attempt == 0 { 0 } else if attempt - 1 > 31 { 31 } else { (attempt - 1) as nat };
    let e2: nat = if attempt + 1 - 1 > 31 { 31 } else { attempt as nat };
    assert(e1 <= e2);
    lemma_power_monotonic(policy.multiplier as nat, e1, e2);
    let g1 = saturate_u64(power(policy.multiplier as nat, e1) as int);
    let g2 = saturate_u64(power(policy.multiplier as nat, e2) as int);
    assert(g1 <= g2);
    assert(policy.initial_delay_ms * g1 <= policy.initial_delay_ms * g2) by (nonlinear_arith)
        requires
            g1 <= g2,
    ;
}

proof fn lemma_power_positive(b: nat, e: nat)
    requires
        b >= 1,
    ensures
        power(b, e) >= 1,
    decreases e,
{
    if e > 0 {
        lemma_power_positive(b, (e - 1) as nat);
        assert(b * power(b, (e - 1) as nat) >= 1) by (nonlinear_arith)
            requires
                b >= 1,
                power(b, (e - 1) as nat) >= 1,
        ;
    }
}

proof fn lemma_power_monotonic(b: nat, e1: nat, e2: nat)
    requires
        b >= 1,
        e1 <= e2,
    ensures
        power(b, e1) <= power(b, e2),
    decreases e2,
{
    if e1 < e2 {
        lemma_power_monotonic(b, e1, (e2 - 1) as nat);
        lemma_power_positive(b, (e2 - 1) as nat);
        assert(b * power(b, (e2 - 1) as nat) >= power(b, (e2 - 1) as nat)) by (nonlinear_arith)
            requires
                b >= 1,
        ;
    }
}

/// A queue that never holds more than its capacity.
pub struct BoundedIngress<T> {
    capacity: usize,
    policy: IngressPolicy,
    queue: VecDeque<T>,
}

impl<T> BoundedIngress<T> {
    #[verifier::type_invariant]
    spec fn within_bound(self) -> bool {
        &&& self.capacity > 0
        &&& self.queue@.len() <= self.capacity
    }

    /// Queued values, oldest first.
    pub closed spec fn view(&self) -> Seq<T> {
        self.queue@
    }

    pub closed spec fn bound(&self) -> nat {
        self.capacity as nat
    }

    pub closed spec fn overflow_policy(&self) -> IngressPolicy {
        self.policy
    }

    pub fn new(capacity: usize, policy: IngressPolicy) -> (result: Result<Self, EndpointPolicyError>)
        ensures
            capacity == 0 <==> (result is Err),
            match result {
                Ok(ingress) => ingress.view() == Seq::<T>::empty() && ingress.bound() == capacity
                    && ingress.overflow_policy() == policy,
                Err(error) => error == EndpointPolicyError::ZeroQueueCapacity,
            },
    {
        if capacity == 0 {
            return Err(EndpointPolicyError::ZeroQueueCapacity);
        }
        Ok(BoundedIngress { capacity, policy, queue: VecDeque::with_capacity(capacity) })
    }

    /// Enqueues `value`. A full lossless queue refuses it; a full latest-wins
    /// queue drops its oldest value first.
    pub fn push(&mut self, value: T) -> (result: Result<(), IngressError>)
        ensures
            final(self).bound() == old(self).bound(),
            final(self).overflow_policy() == old(self).overflow_policy(),
            final(self).view().len() <= final(self).bound(),
            old(self).view().len() < old(self).bound() ==> (result is Ok) && final(self).view() == old(
                self,
            ).view().push(value),
            old(self).view().len() == old(self).bound() && old(self).overflow_policy() is Lossless ==> result
                == Err::<(), IngressError>(IngressError::Full) && final(self).view() == old(self).view(),
            old(self).view().len() == old(self).bound() && old(self).overflow_policy() is LatestWins ==> (result
                is Ok) && final(self).view() == old(self).view().drop_first().push(value),
    {
        proof {
            use_type_invariant(&*self);
        }
        if self.queue.len() == self.capacity {
            if let IngressPolicy::Lossless = self.policy {
                return Err(IngressError::Full);
            }
        }
        let mut queue = VecDeque::new();
        std::mem::swap(&mut queue, &mut self.queue);
        if queue.len() == self.capacity {
            queue.pop_front();
        }
        queue.push_back(value);
        self.queue = queue;
        Ok(())
    }

    /// Dequeues the oldest value.
    pub fn pop(&mut self) -> (value: Option<T>)
        ensures
            final(self).bound() == old(self).bound(),
            final(self).overflow_policy() == old(self).overflow_policy(),
            old(self).view().len() == 0 ==> (value is None) && final(self).view() == old(self).view(),
            old(self).view().len() > 0 ==> value == Some(old(self).view()[0]) && final(self).view() == old(
                self,
            ).view().drop_first(),
    {
        proof {
            use_type_invariant(&*self);
        }
        let mut queue = VecDeque::new();
        std::mem::swap(&mut queue, &mut self.queue);
        let value = queue.pop_front();
        self.queue = queue;
        value
    }

    pub fn len(&self) -> (len: usize)
        ensures
            len == self.view().len(),
            len <= self.bound(),
    {
        proof {
            use_type_invariant(self);
        }
        self.queue.len()
    }

    pub fn is_empty(&self) -> (empty: bool)
        ensures
            empty <==> self.view().len() == 0,
    {
        self.queue.len() == 0
    }
}

} // verus!
