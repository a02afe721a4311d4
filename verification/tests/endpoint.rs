use golden::endpoint::{
    BoundedIngress, ConnectionState, EndpointPolicy, EndpointPolicyError, IngressError, IngressPolicy,
    RecoveryPolicy, RecoveryStateMachine,
};

#[test]
fn recovery_is_event_driven_and_exponentially_bounded() {
    let mut recovery = RecoveryStateMachine::new(RecoveryPolicy {
        initial_delay_ms: 100,
        maximum_delay_ms: 250,
        multiplier: 2,
    })
    .unwrap();
    assert!(recovery.begin_connect());
    assert!(recovery.disconnected(1_000));
    assert!(!recovery.retry_due(1_099));
    assert!(recovery.retry_due(1_100));
    assert!(recovery.begin_connect());
    assert!(recovery.disconnected(2_000));
    assert_eq!(
        recovery.state(),
        ConnectionState::WaitingToRetry {
            attempt: 3,
            retry_at_ms: 2_200,
        }
    );
}

#[test]
fn ingress_policy_never_grows_past_its_bound() {
    let mut latest = BoundedIngress::new(2, IngressPolicy::LatestWins).unwrap();
    for value in 0..10_000 {
        latest.push(value).unwrap();
    }
    assert_eq!(latest.len(), 2);
    assert_eq!(latest.pop(), Some(9_998));
    assert_eq!(latest.pop(), Some(9_999));

    let mut lossless = BoundedIngress::new(1, IngressPolicy::Lossless).unwrap();
    lossless.push(1).unwrap();
    assert_eq!(lossless.push(2), Err(IngressError::Full));
}

#[test]
fn endpoint_recovery_survives_a_long_disconnect_reconnect_soak() {
    let mut recovery = RecoveryStateMachine::new(RecoveryPolicy::default()).unwrap();
    for cycle in 0..100_000_u64 {
        assert!(recovery.begin_connect());
        recovery.connected(cycle * 2);
        assert!(recovery.disconnected(cycle * 2 + 1));
        assert!(recovery.retry_due(cycle * 2 + 1 + 250));
        assert!(recovery.begin_connect());
        recovery.connected(cycle * 2 + 1 + 250);
        recovery.stop();
        recovery = RecoveryStateMachine::new(RecoveryPolicy::default()).unwrap();
    }
    assert_eq!(recovery.state(), ConnectionState::Disconnected);
}

#[test]
fn retry_delay_is_capped_at_the_policy_maximum() {
    let mut recovery = RecoveryStateMachine::new(RecoveryPolicy {
        initial_delay_ms: 1_000,
        maximum_delay_ms: 5_000,
        multiplier: 10,
    })
    .unwrap();
    for _ in 0..40 {
        assert!(recovery.begin_connect());
        assert!(recovery.disconnected(0));
    }
    match recovery.state() {
        ConnectionState::WaitingToRetry { attempt, retry_at_ms } => {
            assert_eq!(attempt, 41);
            assert_eq!(retry_at_ms, 5_000);
        }
        other => panic!("unexpected state {other:?}"),
    }
}

#[test]
fn retry_delay_grows_by_the_multiplier() {
    let mut recovery = RecoveryStateMachine::new(RecoveryPolicy {
        initial_delay_ms: 10,
        maximum_delay_ms: 1_000_000,
        multiplier: 3,
    })
    .unwrap();
    let mut expected = 10;
    for attempt in 1..6u32 {
        assert!(recovery.begin_connect());
        assert!(recovery.disconnected(0));
        assert_eq!(
            recovery.state(),
            ConnectionState::WaitingToRetry { attempt: attempt + 1, retry_at_ms: expected }
        );
        expected *= 3;
    }
}

#[test]
fn retry_deadline_saturates_instead_of_wrapping() {
    let mut recovery = RecoveryStateMachine::new(RecoveryPolicy::default()).unwrap();
    assert!(recovery.begin_connect());
    assert!(recovery.disconnected(u64::MAX - 1));
    assert_eq!(
        recovery.state(),
        ConnectionState::WaitingToRetry { attempt: 2, retry_at_ms: u64::MAX }
    );
    assert!(recovery.retry_due(u64::MAX));
}

#[test]
fn idle_and_stopped_machines_ignore_disconnects() {
    let mut recovery = RecoveryStateMachine::new(RecoveryPolicy::default()).unwrap();
    assert!(!recovery.disconnected(5));
    assert_eq!(recovery.state(), ConnectionState::Disconnected);
    recovery.stop();
    assert!(!recovery.begin_connect());
    assert!(!recovery.disconnected(5));
    assert_eq!(recovery.state(), ConnectionState::Stopped);
    assert!(!recovery.retry_due(u64::MAX));
}

#[test]
fn connecting_twice_is_refused() {
    let mut recovery = RecoveryStateMachine::new(RecoveryPolicy::default()).unwrap();
    assert!(recovery.begin_connect());
    assert!(!recovery.begin_connect());
    assert_eq!(recovery.state(), ConnectionState::Connecting { attempt: 1 });
}

#[test]
fn invalid_recovery_policies_are_rejected() {
    let zero = RecoveryPolicy { initial_delay_ms: 0, maximum_delay_ms: 10, multiplier: 2 };
    assert_eq!(zero.validate(), Err(EndpointPolicyError::InvalidRecoveryPolicy));
    let inverted = RecoveryPolicy { initial_delay_ms: 20, maximum_delay_ms: 10, multiplier: 2 };
    assert_eq!(inverted.validate(), Err(EndpointPolicyError::InvalidRecoveryPolicy));
    let flat = RecoveryPolicy { initial_delay_ms: 20, maximum_delay_ms: 20, multiplier: 0 };
    assert!(RecoveryStateMachine::new(flat).is_err());
    let fine = RecoveryPolicy { initial_delay_ms: 20, maximum_delay_ms: 20, multiplier: 1 };
    assert_eq!(fine.validate(), Ok(fine));
}

#[test]
fn endpoint_policies_check_id_capacity_and_recovery_in_order() {
    let mut policy = EndpointPolicy {
        id: String::new(),
        queue_capacity: 0,
        ingress: IngressPolicy::Lossless,
        recovery: RecoveryPolicy { initial_delay_ms: 0, maximum_delay_ms: 0, multiplier: 0 },
    };
    assert_eq!(policy.validate(), Err(EndpointPolicyError::EmptyId));
    policy.id = "osc".to_owned();
    assert_eq!(policy.validate(), Err(EndpointPolicyError::ZeroQueueCapacity));
    policy.queue_capacity = 8;
    assert_eq!(policy.validate(), Err(EndpointPolicyError::InvalidRecoveryPolicy));
    policy.recovery = RecoveryPolicy::default();
    assert_eq!(policy.validate(), Ok(()));
}

#[test]
fn zero_capacity_ingress_is_rejected() {
    assert!(matches!(
        BoundedIngress::<u8>::new(0, IngressPolicy::LatestWins),
        Err(EndpointPolicyError::ZeroQueueCapacity)
    ));
}

#[test]
fn ingress_is_first_in_first_out() {
    let mut queue = BoundedIngress::new(3, IngressPolicy::Lossless).unwrap();
    assert!(queue.is_empty());
    queue.push('a').unwrap();
    queue.push('b').unwrap();
    assert_eq!(queue.len(), 2);
    assert_eq!(queue.pop(), Some('a'));
    assert_eq!(queue.pop(), Some('b'));
    assert_eq!(queue.pop(), None);
    assert!(queue.is_empty());
}

#[test]
fn error_messages_describe_the_failure() {
    assert_eq!(IngressError::Full.message(), "lossless ingress queue is full");
    assert_eq!(EndpointPolicyError::EmptyId.message(), "endpoint identifier cannot be empty");
}
