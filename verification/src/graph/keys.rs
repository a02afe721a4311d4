//! Sorted enumeration of identity-key sets.

use std::collections::BTreeSet;
use vstd::std_specs::iter::IteratorSpec;
use vstd::std_specs::btree::increasing_seq;
use vstd::std_specs::cmp::OrdSpec;
use vstd::laws_cmp::obeys_cmp;
use vstd::prelude::*;

verus! {

broadcast use {vstd::std_specs::btree::group_btree_axioms, vstd::laws_cmp::group_laws_cmp};

/// Every element is smaller than every later one.
pub open spec fn strictly_increasing(q: Seq<u128>) -> bool {
    forall|i: int, j: int| 0 <= i < j < q.len() ==> q[i] < q[j]
}

/// The elements of a finite key set in increasing order.
pub open spec fn sorted_keys(s: Set<u128>) -> Seq<u128> {
    choose|q: Seq<u128>| strictly_increasing(q) && q.to_set() == s
}

proof fn lemma_first_is_minimum(q: Seq<u128>)
    requires
        strictly_increasing(q),
        q.len() > 0,
    ensures
        forall|x: u128| q.to_set().contains(x) ==> q[0] <= x,
        q.drop_first().to_set() == q.to_set().remove(q[0]),
{
    assert forall|x: u128| q.to_set().contains(x) implies q[0] <= x by {
        let i = choose|i: int| 0 <= i < q.len() && q[i] == x;
        assert(q.contains(x));
    }
    assert forall|x: u128| #[trigger] q.drop_first().to_set().contains(x) <==> q.to_set().remove(q[0]).contains(x) by {
        if q.drop_first().to_set().contains(x) {
            assert(q.drop_first().contains(x));
            let i = choose|i: int| 0 <= i < q.drop_first().len() && q.drop_first()[i] == x;
            assert(q[i + 1] == x);
            assert(q.contains(x));
        }
        if q.to_set().remove(q[0]).contains(x) {
            assert(q.contains(x));
            let i = choose|i: int| 0 <= i < q.len() && q[i] == x;
            assert(i != 0);
            assert(q.drop_first()[i - 1] == x);
            assert(q.drop_first().contains(x));
        }
    }
    assert(q.drop_first().to_set() =~= q.to_set().remove(q[0]));
}

/// Two increasing enumerations of one set are the same sequence.
pub proof fn lemma_sorted_unique(q1: Seq<u128>, q2: Seq<u128>)
    requires
        strictly_increasing(q1),
        strictly_increasing(q2),
        q1.to_set() == q2.to_set(),
    ensures
        q1 == q2,
    decreases q1.len(),
{
    if q1.len() == 0 {
        if q2.len() > 0 {
            assert(q2.to_set().contains(q2[0]));
            assert(q2.contains(q2[0]));
        }
        assert(q1 =~= q2);
    } else {
        if q2.len() == 0 {
            assert(q1.contains(q1[0]));
            assert(q1.to_set().contains(q1[0]));
        }
        lemma_first_is_minimum(q1);
        lemma_first_is_minimum(q2);
        assert(q1.contains(q1[0]));
        assert(q2.contains(q2[0]));
        assert(q1.to_set().contains(q1[0]));
        assert(q2.to_set().contains(q2[0]));
        assert(q1[0] == q2[0]);
        lemma_sorted_unique(q1.drop_first(), q2.drop_first());
        assert(q1 =~= seq![q1[0]] + q1.drop_first());
        assert(q2 =~= seq![q2[0]] + q2.drop_first());
    }
}

/// An increasing enumeration of a set is its sorted enumeration.
pub proof fn lemma_sorted_keys_of(q: Seq<u128>)
    requires
        strictly_increasing(q),
    ensures
        sorted_keys(q.to_set()) == q,
        q.no_duplicates(),
{
    let s = sorted_keys(q.to_set());
    assert(strictly_increasing(s) && s.to_set() == q.to_set());
    lemma_sorted_unique(s, q);
}

proof fn lemma_to_seq_distinct(s: Set<u128>)
    requires
        s.finite(),
    ensures
        s.to_seq().no_duplicates(),
        s.to_seq().to_set() == s,
    decreases s.len(),
{
    s.lemma_to_seq_to_set_id();
    if s.len() > 0 {
        let x = s.choose();
        let rest = s.remove(x);
        lemma_to_seq_distinct(rest);
        let q = s.to_seq();
        assert(q =~= seq![x] + rest.to_seq());
        assert forall|i: int, j: int| 0 <= i < q.len() && 0 <= j < q.len() && i != j implies q[i] != q[j] by {
            if i == 0 && j > 0 {
                assert(rest.to_seq().contains(q[j]));
                assert(rest.to_seq().to_set().contains(q[j]));
            } else if j == 0 && i > 0 {
                assert(rest.to_seq().contains(q[i]));
                assert(rest.to_seq().to_set().contains(q[i]));
            } else if i > 0 && j > 0 {
                assert(q[i] == rest.to_seq()[i - 1]);
                assert(q[j] == rest.to_seq()[j - 1]);
            }
        }
    }
}

/// Every finite key set has an increasing enumeration.
pub proof fn lemma_sorted_keys_exist(s: Set<u128>)
    requires
        s.finite(),
    ensures
        strictly_increasing(sorted_keys(s)),
        sorted_keys(s).to_set() == s,
        sorted_keys(s).no_duplicates(),
{
    let leq = |a: u128, b: u128| a <= b;
    let q = s.to_seq();
    lemma_to_seq_distinct(s);
    assert(vstd::relations::total_ordering(leq));
    q.lemma_sort_by_ensures(leq);
    let sorted = q.sort_by(leq);
    q.lemma_multiset_has_no_duplicates();
    assert forall|x: u128| sorted.to_multiset().contains(x) implies sorted.to_multiset().count(x) == 1 by {
        assert(q.to_multiset().contains(x));
    }
    sorted.lemma_multiset_has_no_duplicates_conv();
    assert forall|i: int, j: int| 0 <= i < j < sorted.len() implies sorted[i] < sorted[j] by {
        assert(leq(sorted[i], sorted[j]));
    }
    assert forall|x: u128| #[trigger] sorted.to_set().contains(x) <==> s.contains(x) by {
        vstd::seq_lib::to_multiset_contains(sorted, x);
        vstd::seq_lib::to_multiset_contains(q, x);
        assert(sorted.contains(x) <==> sorted.to_set().contains(x));
        assert(q.contains(x) <==> q.to_set().contains(x));
    }
    assert(sorted.to_set() =~= s);
    lemma_sorted_keys_of(sorted);
}

proof fn lemma_iteration_increasing(set: &BTreeSet<u128>, keys: Seq<u128>)
    requires
        keys == set.iter().remaining().unref(),
    ensures
        strictly_increasing(keys),
{
    let r = set.iter().remaining();
    assert(obeys_cmp::<u128>());
    assert(obeys_cmp::<&u128>());
    assert(increasing_seq(r));
    assert forall|i: int, j: int| 0 <= i < j < keys.len() implies keys[i] < keys[j] by {
        assert((&r[i]).cmp_spec(&&r[j]) is Less);
    }
}

/// A key sequence that the ordered collections report as increasing is
/// strictly increasing.
pub proof fn lemma_increasing_keys(keys: Seq<u128>)
    requires
        increasing_seq(keys),
    ensures
        strictly_increasing(keys),
{
    assert(obeys_cmp::<u128>());
    assert forall|i: int, j: int| 0 <= i < j < keys.len() implies keys[i] < keys[j] by {
        assert(keys[i].cmp_spec(&keys[j]) is Less);
    }
}

/// The keys of `set`, in increasing order.
pub fn sorted_vec(set: &BTreeSet<u128>) -> (keys: Vec<u128>)
    ensures
        keys@ == sorted_keys(set@),
        strictly_increasing(keys@),
        keys@.to_set() == set@,
        keys@.no_duplicates(),
{
    let mut keys: Vec<u128> = Vec::new();
    for e in it: set.iter()
        invariant
            keys@.len() == it.index(),
            forall|i: int| 0 <= i < keys@.len() ==> keys@[i] == *it.seq()[i],
    {
        keys.push(*e);
    }
    assert(keys@ =~= set.iter().remaining().unref());
    proof {
        lemma_iteration_increasing(set, keys@);
        lemma_sorted_keys_of(keys@);
    }
    keys
}

/// Adds every key of `source` to `target`.
pub fn union_into(target: &mut BTreeSet<u128>, source: &BTreeSet<u128>)
    ensures
        final(target)@ == old(target)@.union(source@),
{
    let keys = sorted_vec(source);
    let mut i: usize = 0;
    while i < keys.len()
        invariant
            i <= keys@.len(),
            keys@.to_set() == source@,
            target@ == old(target)@.union(keys@.take(i as int).to_set()),
        decreases keys@.len() - i,
    {
        target.insert(keys[i]);
        assert(keys@.take(i as int + 1) =~= keys@.take(i as int).push(keys@[i as int]));
        proof {
            keys@.take(i as int).lemma_push_to_set_commute(keys@[i as int]);
        }
        assert(target@ =~= old(target)@.union(keys@.take(i as int + 1).to_set()));
        i = i + 1;
    }
    assert(keys@.take(i as int) =~= keys@);
}

} // verus!
