use golden::lanes::{ContextAxis, ContextError, ContextItem, ContextKey, ContextLimits, LaneLayout};
use golden::model::EntityId;

fn axis(label: &str, count: usize) -> ContextAxis<i64> {
    ContextAxis {
        id: EntityId::new(),
        label: label.into(),
        items: (0..count)
            .map(|index| ContextItem { id: EntityId::new(), label: format!("{label}-{index}"), value: index as i64 })
            .collect(),
    }
}

#[test]
fn last_axis_advances_fastest() {
    let first = axis("first", 2);
    let second = axis("second", 3);
    let expected = ContextKey(vec![first.items[1].id, second.items[0].id]);
    let layout = LaneLayout::compile(vec![first, second], ContextLimits::default()).unwrap();
    assert_eq!(layout.lane_count(), 6);
    assert_eq!(layout.key_at(3), Some(expected));
}

#[test]
fn budgets_reject_materialization_before_lane_enumeration() {
    let error = LaneLayout::compile(
        vec![axis("a", 8), axis("b", 8)],
        ContextLimits { maximum_items_per_axis: 8, maximum_lanes: 32 },
    )
    .unwrap_err();
    assert_eq!(error, ContextError::LaneBudgetExceeded { count: 64, maximum: 32 });
}

#[test]
fn migration_keeps_only_stable_context_key_intersections() {
    let first = axis("first", 2);
    let second = axis("second", 2);
    let previous = LaneLayout::compile(vec![first.clone(), second.clone()], ContextLimits::default()).unwrap();

    let mut resized_second = second;
    resized_second.items.remove(0);
    let replacement = LaneLayout::compile(vec![first, resized_second], ContextLimits::default()).unwrap();
    assert_eq!(previous.migration_to(&replacement), [(1, 0), (3, 1)]);
}

#[test]
fn axis_budgets_and_empty_layouts() {
    let error = LaneLayout::compile(vec![axis("a", 3)], ContextLimits { maximum_items_per_axis: 2, maximum_lanes: 10 })
        .unwrap_err();
    assert_eq!(error, ContextError::AxisBudgetExceeded { count: 3, maximum: 2 });
    let empty = LaneLayout::<i64>::compile(Vec::new(), ContextLimits::default()).unwrap();
    assert_eq!(empty.lane_count(), 1);
    assert_eq!(empty.key_at(0), Some(ContextKey(Vec::new())));
    assert_eq!(empty.key_at(1), None);
    let defaults = ContextLimits::default();
    assert_eq!((defaults.maximum_items_per_axis, defaults.maximum_lanes), (4096, 16384));
}
