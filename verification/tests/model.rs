use golden::model::{ChangeSet, EntityId, Revision};

#[test]
fn revisions_advance_without_wrapping() {
    assert_eq!(Revision::new(41).next(), Some(Revision::new(42)));
    assert_eq!(Revision::new(u64::MAX).next(), None);
}

#[test]
fn change_sets_own_one_precise_revision_transition() {
    let changes = ChangeSet::new(Revision::new(7), vec!["updated"]).expect("revision should advance");
    assert_eq!(changes.before, Revision::new(7));
    assert_eq!(changes.after, Revision::new(8));
    assert_eq!(changes.changes, ["updated"]);
}

#[test]
fn change_sets_cannot_start_at_the_last_revision() {
    assert!(ChangeSet::new(Revision::new(u64::MAX), vec![1]).is_none());
    assert_eq!(Revision::zero().get(), 0);
}

#[test]
fn fresh_entity_ids_differ() {
    let a = EntityId::new();
    let b = EntityId::new();
    assert_ne!(a, b);
    assert_eq!(EntityId::from_u128(7).as_u128(), 7);
}

#[test]
fn fresh_identities_are_version_four_uuids() {
    for _ in 0..16 {
        let bits = EntityId::new().0;
        assert_eq!((bits >> 76) & 0xF, 4);
        assert_eq!((bits >> 62) & 0x3, 0b10);
    }
    assert_ne!(EntityId::new(), EntityId::new());
}
