//! Checked context axes and deterministic dense lane layouts.
//!
//! A layout enumerates every combination of one item per axis. Lane numbers
//! are mixed-radix numerals over the axes' item counts with the last axis
//! advancing fastest.

use vstd::prelude::*;
use vstd::arithmetic::div_mod::lemma_div_denominator;
use crate::model::EntityId;

verus! {

/// One item of a context axis, carrying a value of the application's value type.
#[derive(Clone, Debug)]
pub struct ContextItem<V> {
    pub id: EntityId,
    pub label: String,
    pub value: V,
}

#[derive(Clone, Debug)]
pub struct ContextAxis<V> {
    pub id: EntityId,
    pub label: String,
    pub items: Vec<ContextItem<V>>,
}

#[derive(Clone, Copy, Debug, PartialEq, Eq, Structural)]
pub struct ContextLimits {
    pub maximum_items_per_axis: usize,
    pub maximum_lanes: usize,
}

impl ContextLimits {
    /// 4096 items per axis and 16384 lanes.
    pub fn default_limits() -> (limits: Self)
        ensures
            limits.maximum_items_per_axis == 4096,
            limits.maximum_lanes == 16384,
    {
        ContextLimits { maximum_items_per_axis: 4_096, maximum_lanes: 16_384 }
    }
}

impl Default for ContextLimits {
    fn default() -> (limits: Self)
        ensures
            limits.maximum_items_per_axis == 4096,
            limits.maximum_lanes == 16384,
    {
        ContextLimits::default_limits()
    }
}

/// The identities of one item per axis.
#[derive(Clone, Debug, PartialEq, Eq)]
pub struct ContextKey(pub Vec<EntityId>);

#[derive(Clone, Copy, Debug, PartialEq, Eq, Structural)]
pub enum ContextError {
    CardinalityOverflow,
    AxisBudgetExceeded { count: usize, maximum: usize },
    LaneBudgetExceeded { count: usize, maximum: usize },
}

/// Product of `counts`.
pub open spec fn product(counts: Seq<int>) -> int
    decreases counts.len(),
{
    if counts.len() == 0 {
        1
    } else {
        product(counts.drop_last()) * counts.last()
    }
}

/// What compiling axes with item counts `counts` yields: the lane count, or
/// the first budget or overflow failure met scanning the axes in order.
pub open spec fn compile_outcome(counts: Seq<int>, limits: ContextLimits) -> Result<int, ContextError>
    decreases counts.len(),
{
    if counts.len() == 0 {
        Ok(1)
    } else {
        match compile_outcome(counts.drop_last(), limits) {
            Err(e) => Err(e),
            Ok(p) => {
                let c = counts.last();
                if c > limits.maximum_items_per_axis {
                    Err(ContextError::AxisBudgetExceeded { count: c as usize, maximum: limits.maximum_items_per_axis })
                } else if p * c > usize::MAX {
                    Err(ContextError::CardinalityOverflow)
                } else if p * c > limits.maximum_lanes {
                    Err(ContextError::LaneBudgetExceeded { count: (p * c) as usize, maximum: limits.maximum_lanes })
                } else {
                    Ok(p * c)
                }
            },
        }
    }
}

/// The item index of axis `j` in lane `lane`: digit `j` of `lane` in the
/// mixed radix of `counts`, the last axis least significant.
pub open spec fn lane_digit(lane: int, counts: Seq<int>, j: int) -> int {
    (lane / product(counts.subrange(j + 1, counts.len() as int))) % counts[j]
}

/// The item identities per axis.
pub open spec fn axis_item_ids<V>(axes: Seq<ContextAxis<V>>) -> Seq<Seq<EntityId>> {
    axes.map_values(|axis: ContextAxis<V>| axis.items@.map_values(|item: ContextItem<V>| item.id))
}

pub open spec fn item_counts(ids: Seq<Seq<EntityId>>) -> Seq<int> {
    ids.map_values(|items: Seq<EntityId>| items.len() as int)
}

/// The key of lane `lane` of a layout with item identities `ids`.
pub open spec fn lane_key(ids: Seq<Seq<EntityId>>, lane: int) -> Seq<EntityId> {
    Seq::new(ids.len(), |j: int| ids[j][lane_digit(lane, item_counts(ids), j)])
}

proof fn lemma_product_nonnegative(counts: Seq<int>)
    requires
        forall|i: int| 0 <= i < counts.len() ==> counts[i] >= 0,
    ensures
        product(counts) >= 0,
    decreases counts.len(),
{
    if counts.len() > 0 {
        lemma_product_nonnegative(counts.drop_last());
        let p = product(counts.drop_last());
        let c = counts.last();
        assert(p * c >= 0) by (nonlinear_arith)
            requires
                p >= 0,
                c >= 0,
        ;
    }
}

/// A positive product has only positive factors.
proof fn lemma_positive_product_factors(counts: Seq<int>)
    requires
        forall|i: int| 0 <= i < counts.len() ==> counts[i] >= 0,
        product(counts) > 0,
    ensures
        forall|i: int| 0 <= i < counts.len() ==> counts[i] > 0,
    decreases counts.len(),
{
    if counts.len() > 0 {
        let p = product(counts.drop_last());
        let c = counts.last();
        lemma_product_nonnegative(counts.drop_last());
        assert(p > 0 && c > 0) by (nonlinear_arith)
            requires
                p >= 0,
                c >= 0,
                p * c > 0,
        ;
        lemma_positive_product_factors(counts.drop_last());
        assert forall|i: int| 0 <= i < counts.len() implies counts[i] > 0 by {
            if i < counts.len() - 1 {
                assert(counts.drop_last()[i] == counts[i]);
            }
        }
    }
}

/// The product of a sequence is its first factor times the product of the rest.
proof fn lemma_product_first(counts: Seq<int>)
    requires
        counts.len() > 0,
    ensures
        product(counts) == counts[0] * product(counts.subrange(1, counts.len() as int)),
    decreases counts.len(),
{
    if counts.len() == 1 {
        assert(counts.drop_last() =~= Seq::<int>::empty());
        assert(counts.subrange(1, 1) =~= Seq::<int>::empty());
    } else {
        lemma_product_first(counts.drop_last());
        assert(counts.drop_last().subrange(1, counts.len() - 1) =~= counts.subrange(1, counts.len() as int).drop_last());
        let a = counts[0];
        let q = product(counts.subrange(1, counts.len() as int).drop_last());
        let c = counts.last();
        assert((a * q) * c == a * (q * c)) by (nonlinear_arith);
    }
}

proof fn lemma_compile_outcome_product(counts: Seq<int>, limits: ContextLimits)
    requires
        compile_outcome(counts, limits) is Ok,
    ensures
        compile_outcome(counts, limits) == Ok::<int, ContextError>(product(counts)),
        forall|i: int| 0 <= i < counts.len() ==> counts[i] <= limits.maximum_items_per_axis,
        product(counts) <= usize::MAX,
    decreases counts.len(),
{
    if counts.len() > 0 {
        lemma_compile_outcome_product(counts.drop_last(), limits);
        assert forall|i: int| 0 <= i < counts.len() implies counts[i] <= limits.maximum_items_per_axis by {
            if i < counts.len() - 1 {
                assert(counts.drop_last()[i] == counts[i]);
            }
        }
    }
}

/// A dense enumeration of all combinations of one item per axis.
#[derive(Debug)]
pub struct LaneLayout<V> {
    axes: Vec<ContextAxis<V>>,
    lane_count: usize,
}

impl<V> LaneLayout<V> {
    #[verifier::type_invariant]
    spec fn counts_lanes(self) -> bool {
        self.lane_count == product(item_counts(axis_item_ids(self.axes@)))
    }

    /// The item identities per axis.
    pub closed spec fn item_ids(&self) -> Seq<Seq<EntityId>> {
        axis_item_ids(self.axes@)
    }

    pub closed spec fn spec_lane_count(&self) -> int {
        self.lane_count as int
    }

    /// Lays out `axes` within `limits`.
    pub fn compile(axes: Vec<ContextAxis<V>>, limits: ContextLimits) -> (result: Result<Self, ContextError>)
        ensures
            compile_outcome(item_counts(axis_item_ids(axes@)), limits) == match result {
                Ok(layout) => Ok::<int, ContextError>(layout.spec_lane_count()),
                Err(e) => Err::<int, ContextError>(e),
            },
            match result {
                Ok(layout) => layout.item_ids() == axis_item_ids(axes@) && layout.spec_lane_count() == product(
                    item_counts(axis_item_ids(axes@)),
                ),
                Err(_) => true,
            },
    {
        let ghost counts = item_counts(axis_item_ids(axes@));
        let mut lane_count: usize = 1;
        let mut i: usize = 0;
        while i < axes.len()
            invariant
                i <= axes@.len(),
                counts == item_counts(axis_item_ids(axes@)),
                counts.len() == axes@.len(),
                compile_outcome(counts.subrange(0, i as int), limits) == Ok::<int, ContextError>(lane_count as int),
            decreases axes@.len() - i,
        {
            let count = axes[i].items.len();
            assert(counts.subrange(0, i as int + 1).drop_last() =~= counts.subrange(0, i as int));
            assert(counts[i as int] == count);
            if count > limits.maximum_items_per_axis {
                proof {
                    lemma_outcome_error_persists(counts, i as int + 1, limits);
                }
                return Err(ContextError::AxisBudgetExceeded { count, maximum: limits.maximum_items_per_axis });
            }
            lane_count = match lane_count.checked_mul(count) {
                Some(next) => next,
                None => {
                    proof {
                        lemma_outcome_error_persists(counts, i as int + 1, limits);
                    }
                    return Err(ContextError::CardinalityOverflow);
                },
            };
            if lane_count > limits.maximum_lanes {
                proof {
                    lemma_outcome_error_persists(counts, i as int + 1, limits);
                }
                return Err(ContextError::LaneBudgetExceeded { count: lane_count, maximum: limits.maximum_lanes });
            }
            i = i + 1;
        }
        assert(counts.subrange(0, i as int) =~= counts);
        proof {
            lemma_compile_outcome_product(counts, limits);
        }
        Ok(LaneLayout { axes, lane_count })
    }

    pub fn lane_count(&self) -> (count: usize)
        ensures
            count == self.spec_lane_count(),
            count == product(item_counts(self.item_ids())),
    {
        proof {
            use_type_invariant(self);
        }
        self.lane_count
    }

    /// The key of lane `lane`, or `None` past the last lane.
    pub fn key_at(&self, lane: usize) -> (key: Option<ContextKey>)
        ensures
            lane >= self.spec_lane_count() ==> (key is None),
            lane < self.spec_lane_count() ==> (match key {
                Some(k) => k.0@ == lane_key(self.item_ids(), lane as int),
                None => false,
            }),
    {
        proof {
            use_type_invariant(self);
        }
        if lane >= self.lane_count {
            return None;
        }
        let ghost ids = axis_item_ids(self.axes@);
        let ghost counts = item_counts(ids);
        proof {
            assert forall|i: int| 0 <= i < counts.len() implies counts[i] >= 0 by {}
            lemma_positive_product_factors(counts);
        }
        let n = self.axes.len();
        let mut key: Vec<EntityId> = Vec::new();
        let mut k: usize = 0;
        while k < n
            invariant
                k <= n,
                n == self.axes@.len(),
                key@.len() == k,
                forall|j: int| 0 <= j < k ==> key@[j] == EntityId(0),
            decreases n - k,
        {
            key.push(EntityId(0));
            k = k + 1;
        }
        let mut remainder = lane;
        let mut axis_index = n;
        proof {
            assert(counts.subrange(n as int, n as int) =~= Seq::<int>::empty());
        }
        while axis_index > 0
            invariant
                axis_index <= n,
                n == self.axes@.len(),
                ids == axis_item_ids(self.axes@),
                counts == item_counts(ids),
                counts.len() == n,
                forall|i: int| 0 <= i < counts.len() ==> counts[i] > 0,
                key@.len() == n,
                0 <= lane,
                remainder as int == lane as int / product(counts.subrange(axis_index as int, n as int)),
                forall|j: int| axis_index <= j < n ==> key@[j] == ids[j][lane_digit(lane as int, counts, j)],
            decreases axis_index,
        {
            axis_index = axis_index - 1;
            let items = &self.axes[axis_index].items;
            let count = items.len();
            assert(count == counts[axis_index as int]);
            let item_index = remainder % count;
            let ghost suffix = product(counts.subrange(axis_index as int + 1, n as int));
            proof {
                lemma_product_first(counts.subrange(axis_index as int, n as int));
                assert(counts.subrange(axis_index as int, n as int).subrange(1, (n - axis_index) as int) =~= counts.subrange(
                    axis_index as int + 1,
                    n as int,
                ));
                lemma_positive_product_suffix(counts, axis_index as int + 1);
                lemma_div_denominator(lane as int, suffix, count as int);
                assert(suffix * count == count * suffix) by (nonlinear_arith);
            }
            key.set(axis_index, items[item_index].id);
            remainder = remainder / count;
        }
        Some(ContextKey(key))
    }
}

proof fn lemma_positive_product_suffix(counts: Seq<int>, from: int)
    requires
        0 <= from <= counts.len(),
        forall|i: int| 0 <= i < counts.len() ==> counts[i] > 0,
    ensures
        product(counts.subrange(from, counts.len() as int)) > 0,
    decreases counts.len() - from,
{
    if from < counts.len() {
        lemma_positive_product_suffix(counts, from + 1);
        lemma_product_first(counts.subrange(from, counts.len() as int));
        assert(counts.subrange(from, counts.len() as int).subrange(1, counts.len() - from) =~= counts.subrange(
            from + 1,
            counts.len() as int,
        ));
        let a = counts[from];
        let q = product(counts.subrange(from + 1, counts.len() as int));
        assert(a * q > 0) by (nonlinear_arith)
            requires
                a > 0,
                q > 0,
        ;
    } else {
        assert(counts.subrange(from, counts.len() as int) =~= Seq::<int>::empty());
    }
}

/// The largest lane below `upto` of the layout with item identities `ids`
/// whose key is `key`.
pub open spec fn last_lane_with_key(ids: Seq<Seq<EntityId>>, upto: int, key: Seq<EntityId>) -> Option<int>
    decreases upto,
{
    if upto <= 0 {
        None
    } else if lane_key(ids, upto - 1) == key {
        Some(upto - 1)
    } else {
        last_lane_with_key(ids, upto - 1, key)
    }
}

/// For each lane `n` below `upto` of the replacement layout, in order, the
/// pair `(o, n)` where `o` is the last lane of the current layout with the
/// same key, when one exists.
pub open spec fn migration_pairs(
    old_ids: Seq<Seq<EntityId>>,
    old_count: int,
    new_ids: Seq<Seq<EntityId>>,
    upto: int,
) -> Seq<(int, int)>
    decreases upto,
{
    if upto <= 0 {
        Seq::empty()
    } else {
        let prefix = migration_pairs(old_ids, old_count, new_ids, upto - 1);
        match last_lane_with_key(old_ids, old_count, lane_key(new_ids, upto - 1)) {
            Some(o) => prefix.push((o, upto - 1)),
            None => prefix,
        }
    }
}

/// Every migrated lane keeps its context key: the current and the
/// replacement lane of each pair have the same key.
pub proof fn lemma_migration_keeps_keys(
    old_ids: Seq<Seq<EntityId>>,
    old_count: int,
    new_ids: Seq<Seq<EntityId>>,
    upto: int,
)
    ensures
        forall|i: int|
            0 <= i < migration_pairs(old_ids, old_count, new_ids, upto).len() ==> {
                let pair = #[trigger] migration_pairs(old_ids, old_count, new_ids, upto)[i];
                &&& 0 <= pair.0 < old_count
                &&& 0 <= pair.1 < upto
                &&& lane_key(old_ids, pair.0) == lane_key(new_ids, pair.1)
            },
    decreases upto,
{
    if upto > 0 {
        lemma_migration_keeps_keys(old_ids, old_count, new_ids, upto - 1);
        lemma_last_lane_with_key(old_ids, old_count, lane_key(new_ids, upto - 1));
        let prefix = migration_pairs(old_ids, old_count, new_ids, upto - 1);
        let all = migration_pairs(old_ids, old_count, new_ids, upto);
        assert forall|i: int| 0 <= i < all.len() implies {
            let pair = #[trigger] all[i];
            &&& 0 <= pair.0 < old_count
            &&& 0 <= pair.1 < upto
            &&& lane_key(old_ids, pair.0) == lane_key(new_ids, pair.1)
        } by {
            if i < prefix.len() {
                assert(all[i] == prefix[i]);
            }
        }
    }
}

proof fn lemma_last_lane_with_key(ids: Seq<Seq<EntityId>>, upto: int, key: Seq<EntityId>)
    ensures
        match last_lane_with_key(ids, upto, key) {
            Some(o) => 0 <= o < upto && lane_key(ids, o) == key,
            None => true,
        },
    decreases upto,
{
    if upto > 0 && lane_key(ids, upto - 1) != key {
        lemma_last_lane_with_key(ids, upto - 1, key);
    }
}

fn keys_equal(a: &Vec<EntityId>, b: &Vec<EntityId>) -> (equal: bool)
    ensures
        equal == (a@ == b@),
{
    if a.len() != b.len() {
        return false;
    }
    let mut i: usize = 0;
    while i < a.len()
        invariant
            i <= a@.len(),
            a@.len() == b@.len(),
            forall|j: int| 0 <= j < i ==> a@[j] == b@[j],
        decreases a@.len() - i,
    {
        if a[i] != b[i] {
            return false;
        }
        i = i + 1;
    }
    assert(a@ =~= b@);
    true
}

impl<V> LaneLayout<V> {
    /// Lane pairs `(current, replacement)` for the replacement lanes whose
    /// key also names a lane of this layout (the last such lane).
    pub fn migration_to(&self, replacement: &Self) -> (pairs: Vec<(usize, usize)>)
        ensures
            pairs@.len() == migration_pairs(
                self.item_ids(),
                self.spec_lane_count(),
                replacement.item_ids(),
                replacement.spec_lane_count(),
            ).len(),
            forall|i: int|
                0 <= i < pairs@.len() ==> {
                    let expected = migration_pairs(
                        self.item_ids(),
                        self.spec_lane_count(),
                        replacement.item_ids(),
                        replacement.spec_lane_count(),
                    )[i];
                    #[trigger] pairs@[i].0 == expected.0 && pairs@[i].1 == expected.1
                },
    {
        let ghost old_ids = self.item_ids();
        let ghost new_ids = replacement.item_ids();
        let old_count = self.lane_count();
        let new_count = replacement.lane_count();
        let mut pairs: Vec<(usize, usize)> = Vec::new();
        let mut n: usize = 0;
        while n < new_count
            invariant
                n <= new_count,
                old_count == self.spec_lane_count(),
                new_count == replacement.spec_lane_count(),
                old_ids == self.item_ids(),
                new_ids == replacement.item_ids(),
                pairs@.len() == migration_pairs(old_ids, old_count as int, new_ids, n as int).len(),
                forall|i: int|
                    0 <= i < pairs@.len() ==> {
                        let expected = migration_pairs(old_ids, old_count as int, new_ids, n as int)[i];
                        #[trigger] pairs@[i].0 == expected.0 && pairs@[i].1 == expected.1
                    },
            decreases new_count - n,
        {
            let key = match replacement.key_at(n) {
                Some(key) => key,
                None => {
                    assert(false);
                    return pairs;
                },
            };
            let ghost wanted = lane_key(new_ids, n as int);
            let mut o = old_count;
            let mut found = false;
            while o > 0 && !found
                invariant
                    o <= old_count,
                    old_count == self.spec_lane_count(),
                    old_ids == self.item_ids(),
                    key.0@ == wanted,
                    !found ==> last_lane_with_key(old_ids, old_count as int, wanted) == last_lane_with_key(
                        old_ids,
                        o as int,
                        wanted,
                    ),
                    found ==> last_lane_with_key(old_ids, old_count as int, wanted) == Some(o as int),
                decreases o,
            {
                let candidate = o - 1;
                let old_key = match self.key_at(candidate) {
                    Some(k) => k,
                    None => {
                        assert(false);
                        return pairs;
                    },
                };
                if keys_equal(&old_key.0, &key.0) {
                    found = true;
                    o = candidate;
                } else {
                    o = candidate;
                }
            }
            if found {
                pairs.push((o, n));
            }
            proof {
                if !found {
                    assert(last_lane_with_key(old_ids, 0, wanted) is None);
                }
            }
            n = n + 1;
        }
        pairs
    }
}

/// Once a prefix of the axes fails, the whole layout fails the same way.
proof fn lemma_outcome_error_persists(counts: Seq<int>, n: int, limits: ContextLimits)
    requires
        0 <= n <= counts.len(),
        compile_outcome(counts.subrange(0, n), limits) is Err,
    ensures
        compile_outcome(counts, limits) == compile_outcome(counts.subrange(0, n), limits),
    decreases counts.len() - n,
{
    if n < counts.len() {
        assert(counts.subrange(0, n + 1).drop_last() =~= counts.subrange(0, n));
        lemma_outcome_error_persists(counts, n + 1, limits);
    } else {
        assert(counts.subrange(0, n) =~= counts);
    }
}

} // verus!
