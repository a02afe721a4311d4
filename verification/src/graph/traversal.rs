//! Deterministic traversals of a graph document.

use std::collections::{BTreeMap, BTreeSet};
use vstd::prelude::*;
use crate::model::EntityId;
use super::document::{GraphDocument, GraphState, outgoing_of, incoming_of, state_wf};
use super::domain::GraphDomain;
use super::ids::GraphNodeId;
use super::keys::{sorted_keys, strictly_increasing, lemma_sorted_keys_of, lemma_sorted_keys_exist};

verus! {

broadcast use {vstd::std_specs::btree::group_btree_axioms, vstd::laws_cmp::group_laws_cmp};

/// The nodes that could not be ordered because a cycle feeds them.
#[derive(Clone, Debug, PartialEq, Eq)]
pub struct GraphCycle {
    pub remaining: Vec<GraphNodeId>,
}

/// The keys of a list of node identities.
pub open spec fn node_keys(ids: Seq<GraphNodeId>) -> Seq<u128> {
    ids.map_values(|id: GraphNodeId| id.key())
}

/// The edges into `node` whose source is not among `placed`.
pub open spec fn pending<D: GraphDomain>(s: GraphState<D>, placed: Set<u128>, node: u128) -> Set<u128> {
    Set::new(
        |e: u128|
            s.edges.contains_key(e) && s.edges[e].to.node.key() == node && !placed.contains(
                s.edges[e].from.node.key(),
            ),
    )
}

/// Node `node` exists, is not among `placed`, and every edge into it comes
/// from a node among `placed`.
pub open spec fn placeable<D: GraphDomain>(s: GraphState<D>, placed: Set<u128>, node: u128) -> bool {
    s.nodes.contains_key(node) && !placed.contains(node) && pending(s, placed, node) == Set::<u128>::empty()
}

/// `order` places nodes one at a time, each time the smallest node whose
/// predecessors are all placed.
pub open spec fn stable_prefix<D: GraphDomain>(s: GraphState<D>, order: Seq<u128>) -> bool {
    &&& order.no_duplicates()
    &&& forall|i: int| 0 <= i < order.len() ==> placeable(s, order.subrange(0, i).to_set(), #[trigger] order[i])
    &&& forall|i: int, m: u128|
        #![trigger order[i], placeable(s, order.subrange(0, i).to_set(), m)]
        0 <= i < order.len() && placeable(s, order.subrange(0, i).to_set(), m) ==> order[i] <= m
}

/// Removes and returns the smallest key. Calls `BTreeSet::pop_first`, which
/// removes the set's first element, its minimum, when there is one.
#[verifier::external_body]
fn pop_first_key(set: &mut BTreeSet<u128>) -> (first: Option<u128>)
    ensures
        match first {
            None => old(set)@ == Set::<u128>::empty() && final(set)@ == old(set)@,
            Some(k) => old(set)@.contains(k) && (forall|x: u128| old(set)@.contains(x) ==> k <= x) && final(set)@
                == old(set)@.remove(k),
        },
{
    set.pop_first()
}

proof fn lemma_pending_finite<D: GraphDomain>(s: GraphState<D>, placed: Set<u128>, node: u128)
    requires
        s.edges.dom().finite(),
    ensures
        pending(s, placed, node).finite(),
        pending(s, placed, node).subset_of(s.edges.dom()),
{
    assert(pending(s, placed, node).subset_of(s.edges.dom()));
    vstd::set_lib::lemma_len_subset(pending(s, placed, node), s.edges.dom());
}

/// A strictly increasing sequence has as many elements as the set of them.
proof fn lemma_increasing_length(q: Seq<u128>)
    requires
        strictly_increasing(q),
    ensures
        q.no_duplicates(),
        q.to_set().len() == q.len(),
{
    lemma_sorted_keys_of(q);
    q.unique_seq_to_set();
}

/// Ordering stopped after `placed`: `remaining` lists, in increasing order,
/// the nodes not placed; there is one at least, and each has a predecessor
/// among them.
pub open spec fn stopped_by_cycle<D: GraphDomain>(s: GraphState<D>, placed: Seq<u128>, remaining: Seq<u128>) -> bool {
    let rest = s.nodes.dom().difference(placed.to_set());
    &&& stable_prefix(s, placed)
    &&& strictly_increasing(remaining)
    &&& remaining.to_set() == rest
    &&& remaining.len() > 0
    &&& forall|n: u128| #[trigger]
        rest.contains(n) ==> exists|e: u128|
            s.edges.contains_key(e) && s.edges[e].to.node.key() == n && rest.contains(
                #[trigger] s.edges[e].from.node.key(),
            )
}

/// A stable topological order of all nodes, or the report of a cycle.
pub open spec fn topological_outcome<D: GraphDomain>(s: GraphState<D>, result: Result<Vec<GraphNodeId>, GraphCycle>) -> bool {
    match result {
        Ok(order) => stable_prefix(s, node_keys(order@)) && node_keys(order@).to_set() == s.nodes.dom(),
        Err(cycle) => exists|placed: Seq<u128>| #[trigger] stopped_by_cycle(s, placed, node_keys(cycle.remaining@)),
    }
}

/// The nodes in a stable topological order: each time, the smallest node
/// whose predecessors are all placed. When a cycle stops the order, the
/// nodes left over, in increasing order; each of them has a predecessor
/// among them, so no topological order exists.
#[verifier::loop_isolation(false)]
pub fn stable_topological_order<D: GraphDomain>(graph: &GraphDocument<D>) -> (result: Result<
    Vec<GraphNodeId>,
    GraphCycle,
>)
    requires
        graph.wf(),
    ensures
        topological_outcome(graph@, result),
{
    let ghost s = graph@;
    proof {
        graph.lemma_wf_content();
        graph.lemma_finite();
        assert(s.edges.dom().finite());
        assert(s.nodes.dom().finite());
    }
    let nodes = graph.nodes();
    let n = nodes.len();
    let ghost keys = sorted_keys(s.nodes.dom());
    proof {
        lemma_increasing_length(keys);
    }
    let mut indegree: BTreeMap<u128, usize> = BTreeMap::new();
    let mut ready: BTreeSet<u128> = BTreeSet::new();
    let mut i: usize = 0;
    while i < n
        invariant
            i <= n,
            n == nodes@.len(),
            n == keys.len(),
            state_wf(s),
            graph.wf(),
            s == graph@,
            s.edges.dom().finite(),
            keys == sorted_keys(s.nodes.dom()),
            strictly_increasing(keys),
            keys.to_set() == s.nodes.dom(),
            forall|j: int| 0 <= j < n ==> *(#[trigger] nodes@[j]) == s.nodes[keys[j]],
            indegree@.dom() == keys.take(i as int).to_set(),
            forall|k: u128| #[trigger]
                indegree@.contains_key(k) ==> indegree@[k] == pending(s, Set::empty(), k).len(),
            ready@ == Set::new(|k: u128| keys.take(i as int).to_set().contains(k) && pending(s, Set::empty(), k).len() == 0),
        decreases n - i,
    {
        let node = nodes[i];
        let ghost key = keys[i as int];
        proof {
            assert(keys.contains(key));
            assert(s.nodes.contains_key(key));
        }
        let id = node.id;
        assert(id.key() == key);
        let incoming = graph.incoming_edges(id);
        let degree = incoming.len();
        proof {
            let inc = incoming_of(s.edges, key);
            assert(pending(s, Set::empty(), key) =~= inc);
            lemma_increasing_length(sorted_keys(inc));
        }
        indegree.insert(id.0.0, degree);
        if degree == 0 {
            ready.insert(id.0.0);
        }
        proof {
            assert(keys.take(i as int + 1) =~= keys.take(i as int).push(key));
            keys.take(i as int).lemma_push_to_set_commute(key);
            assert(indegree@.dom() =~= keys.take(i as int + 1).to_set());
            assert(ready@ =~= Set::new(|k: u128| keys.take(i as int + 1).to_set().contains(k) && pending(s, Set::empty(), k).len() == 0));
        }
        i = i + 1;
    }
    assert(keys.take(n as int) =~= keys);
    proof {
        assert forall|k: u128| #[trigger] ready@.contains(k) <==> placeable(s, Set::empty(), k) by {
            lemma_pending_finite(s, Set::empty(), k);
            lemma_empty_iff_zero(pending(s, Set::empty(), k));
        }
        assert(ready@ =~= Set::new(|k: u128| placeable(s, Set::<u128>::empty(), k)));
    }
    let mut order: Vec<GraphNodeId> = Vec::new();
    assert(node_keys(order@).to_set() =~= Set::<u128>::empty());
    while !ready.is_empty()
        invariant
            n == nodes@.len(),
            n == keys.len(),
            state_wf(s),
            graph.wf(),
            s == graph@,
            s.edges.dom().finite(),
            s.nodes.dom().finite(),
            keys == sorted_keys(s.nodes.dom()),
            strictly_increasing(keys),
            keys.to_set() == s.nodes.dom(),
            keys.len() == s.nodes.dom().len(),
            forall|j: int| 0 <= j < n ==> *(#[trigger] nodes@[j]) == s.nodes[keys[j]],
            stable_prefix(s, node_keys(order@)),
            node_keys(order@).to_set().subset_of(s.nodes.dom()),
            ready@ == Set::new(|k: u128| placeable(s, node_keys(order@).to_set(), k)),
            indegree@.dom() == s.nodes.dom(),
            forall|k: u128| #[trigger]
                indegree@.contains_key(k) ==> indegree@[k] == pending(s, node_keys(order@).to_set(), k).len(),
            forall|k: u128| #[trigger]
                node_keys(order@).to_set().contains(k) ==> pending(s, node_keys(order@).to_set(), k) == Set::<
                    u128,
                >::empty(),
        decreases s.nodes.dom().len() - order@.len(),
    {
        let ghost placed = node_keys(order@).to_set();
        let ghost before_ready = ready@;
        let x = match pop_first_key(&mut ready) {
            Some(x) => x,
            None => {
                assert(false);
                break;
            },
        };
        proof {
            assert(placeable(s, placed, x));
            assert forall|m: u128| placeable(s, placed, m) implies x <= m by {
                assert(before_ready.contains(m));
            }
            lemma_increasing_length_of_prefix(s, node_keys(order@));
            assert(node_keys(order@).to_set().insert(x).subset_of(s.nodes.dom()));
            vstd::set_lib::lemma_len_subset(node_keys(order@).to_set().insert(x), s.nodes.dom());
        }
        let ghost old_keys = node_keys(order@);
        order.push(GraphNodeId(EntityId(x)));
        proof {
            assert(node_keys(order@) =~= old_keys.push(x));
            old_keys.lemma_push_to_set_commute(x);
            lemma_stable_push(s, old_keys, x);
        }
        let ghost done = placed.insert(x);
        let node_id = GraphNodeId(EntityId(x));
        let out = graph.outgoing_edges(node_id);
        let ghost out_keys = sorted_keys(outgoing_of(s.edges, x));
        proof {
            lemma_increasing_length(out_keys);
        }
        let mut j: usize = 0;
        proof {
            assert(out_keys.take(0).to_set() =~= Set::<u128>::empty());
            assert forall|k: u128| #[trigger] pending(s, placed, k).difference(out_keys.take(0).to_set())
                == pending(s, placed, k) by {
                assert(pending(s, placed, k).difference(out_keys.take(0).to_set()) =~= pending(s, placed, k));
            }
            assert(ready@ =~= Set::new(
                |k: u128|
                    s.nodes.contains_key(k) && !done.contains(k) && pending(s, placed, k).difference(
                        out_keys.take(0).to_set(),
                    ) == Set::<u128>::empty(),
            ));
        }
        while j < out.len()
            invariant
                j <= out@.len(),
                out@.len() == out_keys.len(),
                state_wf(s),
                s.edges.dom().finite(),
                strictly_increasing(out_keys),
                out_keys.to_set() == outgoing_of(s.edges, x),
                forall|m: int| 0 <= m < out@.len() ==> *(#[trigger] out@[m]) == s.edges[out_keys[m]],
                placeable(s, placed, x),
                done == placed.insert(x),
                indegree@.dom() == s.nodes.dom(),
                forall|k: u128| #[trigger]
                    indegree@.contains_key(k) ==> indegree@[k] == pending(s, placed, k).difference(
                        out_keys.take(j as int).to_set(),
                    ).len(),
                ready@ == Set::new(
                    |k: u128|
                        s.nodes.contains_key(k) && !done.contains(k) && pending(s, placed, k).difference(
                            out_keys.take(j as int).to_set(),
                        ) == Set::<u128>::empty(),
                ),
                forall|k: u128| #[trigger] placed.contains(k) ==> pending(s, placed, k) == Set::<u128>::empty(),
            decreases out@.len() - j,
        {
            let edge = out[j];
            let ghost e = out_keys[j as int];
            let target = edge.to.node.0.0;
            let ghost handled = out_keys.take(j as int).to_set();
            let ghost before_degrees = indegree@;
            let ghost before_ready = ready@;
            proof {
                assert(out_keys.contains(e));
                assert(outgoing_of(s.edges, x).contains(e));
                assert(s.edges.contains_key(e));
                assert(edge == s.edges[e]);
                assert(s.nodes.contains_key(target));
                assert(!handled.contains(e)) by {
                    if handled.contains(e) {
                        let m = choose|m: int| 0 <= m < out_keys.take(j as int).len() && out_keys.take(j as int)[m] == e;
                        assert(out_keys[m] == out_keys[j as int]);
                    }
                }
                assert(pending(s, placed, target).difference(handled).contains(e));
                lemma_pending_finite(s, placed, target);
                assert(indegree@.contains_key(target));
            }
            let degree = match indegree.get(&target) {
                Some(d) => *d,
                None => {
                    assert(false);
                    0
                },
            };
            proof {
                let remaining_edges = pending(s, placed, target).difference(handled);
                assert(remaining_edges.remove(e).len() + 1 == remaining_edges.len());
            }
            indegree.insert(target, degree - 1);
            if degree - 1 == 0 {
                ready.insert(target);
            }
            proof {
                let next_handled = out_keys.take(j as int + 1).to_set();
                assert(out_keys.take(j as int + 1) =~= out_keys.take(j as int).push(e));
                out_keys.take(j as int).lemma_push_to_set_commute(e);
                assert(next_handled == handled.insert(e));
                assert forall|k: u128| k != target implies #[trigger] pending(s, placed, k).difference(next_handled)
                    == pending(s, placed, k).difference(handled) by {
                    assert(pending(s, placed, k).difference(next_handled) =~= pending(s, placed, k).difference(
                        handled,
                    ));
                }
                assert(pending(s, placed, target).difference(next_handled) =~= pending(s, placed, target).difference(
                    handled,
                ).remove(e));
                if degree - 1 == 0 {
                    assert(target != x) by {
                        if target == x {
                            assert(pending(s, placed, x).contains(e));
                        }
                    }
                    assert(!placed.contains(target)) by {
                        if placed.contains(target) {
                            assert(pending(s, placed, target).contains(e));
                        }
                    }
                    lemma_empty_iff_zero(pending(s, placed, target).difference(next_handled));
                } else {
                    lemma_empty_iff_zero(pending(s, placed, target).difference(next_handled));
                }
                assert(indegree@.dom() =~= s.nodes.dom());
                assert(ready@ =~= Set::new(
                    |k: u128|
                        s.nodes.contains_key(k) && !done.contains(k) && pending(s, placed, k).difference(next_handled)
                            == Set::<u128>::empty(),
                ));
            }
            j = j + 1;
        }
        proof {
            assert(out_keys.take(out_keys.len() as int) =~= out_keys);
            assert forall|k: u128| #[trigger] pending(s, placed, k).difference(outgoing_of(s.edges, x)) == pending(
                s,
                done,
                k,
            ) by {
                assert(pending(s, placed, k).difference(outgoing_of(s.edges, x)) =~= pending(s, done, k));
            }
            assert(node_keys(order@).to_set() == done);
            assert forall|k: u128| #[trigger] done.contains(k) implies pending(s, done, k) == Set::<u128>::empty() by {
                assert(pending(s, done, k) =~= Set::<u128>::empty()) by {
                    assert forall|e: u128| !pending(s, done, k).contains(e) by {
                        if pending(s, done, k).contains(e) {
                            assert(pending(s, placed, k).contains(e));
                        }
                    }
                }
            }
            assert(ready@ =~= Set::new(|k: u128| placeable(s, done, k)));
        }
    }
    let ghost placed = node_keys(order@).to_set();
    proof {
        lemma_increasing_length_of_prefix(s, node_keys(order@));
        assert forall|k: u128| !placeable(s, placed, k) by {
            assert(!ready@.contains(k));
        }
    }
    if order.len() == n {
        proof {
            if exists|k: u128| s.nodes.dom().contains(k) && !placed.contains(k) {
                let k = choose|k: u128| s.nodes.dom().contains(k) && !placed.contains(k);
                assert(placed.subset_of(s.nodes.dom().remove(k)));
                vstd::set_lib::lemma_len_subset(placed, s.nodes.dom().remove(k));
            }
            assert(placed =~= s.nodes.dom());
        }
        return Ok(order);
    }
    let mut remaining: Vec<GraphNodeId> = Vec::new();
    let mut i: usize = 0;
    while i < n
        invariant
            i <= n,
            strictly_increasing(node_keys(remaining@)),
            node_keys(remaining@).to_set() == keys.take(i as int).to_set().difference(placed),
            forall|m: int| 0 <= m < remaining@.len() ==> keys.take(i as int).contains(#[trigger] node_keys(remaining@)[m]),
        decreases n - i,
    {
        let key = nodes[i].id.0.0;
        let ghost k = keys[i as int];
        proof {
            assert(keys.contains(k));
            assert(s.nodes.contains_key(k));
            assert(key == k);
            assert(indegree@.contains_key(k));
            lemma_pending_finite(s, placed, k);
            lemma_empty_iff_zero(pending(s, placed, k));
        }
        let degree = match indegree.get(&key) {
            Some(d) => *d,
            None => {
                assert(false);
                0
            },
        };
        let ghost before = node_keys(remaining@);
        proof {
            assert(keys.take(i as int + 1) =~= keys.take(i as int).push(k));
            keys.take(i as int).lemma_push_to_set_commute(k);
        }
        if degree > 0 {
            remaining.push(GraphNodeId(EntityId(key)));
            proof {
                assert(node_keys(remaining@) =~= before.push(k));
                before.lemma_push_to_set_commute(k);
                assert forall|m: int| 0 <= m < before.len() implies before[m] < k by {
                    assert(keys.take(i as int).contains(before[m]));
                    let p = choose|p: int| 0 <= p < keys.take(i as int).len() && keys.take(i as int)[p] == before[m];
                    assert(keys[p] < keys[i as int]);
                }
                assert(node_keys(remaining@).to_set() =~= keys.take(i as int + 1).to_set().difference(placed));
                assert forall|m: int| 0 <= m < remaining@.len() implies keys.take(i as int + 1).contains(
                    #[trigger] node_keys(remaining@)[m],
                ) by {
                    if m < before.len() {
                        let p = choose|p: int| 0 <= p < keys.take(i as int).len() && keys.take(i as int)[p] == before[m];
                        assert(keys.take(i as int + 1)[p] == before[m]);
                    } else {
                        assert(keys.take(i as int + 1)[i as int] == k);
                    }
                }
            }
        } else {
            proof {
                assert(!placeable(s, placed, k));
                assert(placed.contains(k));
                assert(node_keys(remaining@).to_set() =~= keys.take(i as int + 1).to_set().difference(placed));
                assert forall|m: int| 0 <= m < remaining@.len() implies keys.take(i as int + 1).contains(
                    #[trigger] node_keys(remaining@)[m],
                ) by {
                    let p = choose|p: int| 0 <= p < keys.take(i as int).len() && keys.take(i as int)[p] == before[m];
                    assert(keys.take(i as int + 1)[p] == before[m]);
                }
            }
        }
        i = i + 1;
    }
    proof {
        assert(keys.take(n as int) =~= keys);
        let rest = s.nodes.dom().difference(placed);
        lemma_sorted_keys_of(node_keys(remaining@));
        assert(node_keys(remaining@).to_set() == rest);
        if remaining@.len() == 0 {
            assert(node_keys(remaining@).to_set() =~= Set::<u128>::empty());
            assert(placed =~= s.nodes.dom()) by {
                assert forall|k: u128| s.nodes.dom().contains(k) implies placed.contains(k) by {
                    if !placed.contains(k) {
                        assert(rest.contains(k));
                    }
                }
            }
        }
        assert forall|r: u128| #[trigger] rest.contains(r) implies exists|e: u128|
            s.edges.contains_key(e) && s.edges[e].to.node.key() == r && rest.contains(
                #[trigger] s.edges[e].from.node.key(),
            ) by {
            assert(!placeable(s, placed, r));
            lemma_pending_finite(s, placed, r);
            assert(pending(s, placed, r) != Set::<u128>::empty());
            let e = choose|e: u128| pending(s, placed, r).contains(e);
            if !pending(s, placed, r).contains(e) {
                assert(pending(s, placed, r) =~= Set::<u128>::empty());
            }
            assert(s.nodes.contains_key(s.edges[e].from.node.key()));
        }
        assert(stopped_by_cycle(s, node_keys(order@), node_keys(remaining@)));
        assert(stopped_by_cycle(graph@, node_keys(order@), node_keys(remaining@)));
    }
    let ghost reported = node_keys(remaining@);
    let ghost witness = node_keys(order@);
    let cycle = GraphCycle { remaining };
    assert(node_keys(cycle.remaining@) == reported);
    assert(stopped_by_cycle(graph@, witness, reported));
    let result: Result<Vec<GraphNodeId>, GraphCycle> = Err(cycle);
    proof {
        let c = result->Err_0;
        assert(node_keys(c.remaining@) == reported);
        assert(stopped_by_cycle(graph@, witness, node_keys(c.remaining@)));
        assert(topological_outcome(graph@, result));
    }
    result
}

/// A finite set is empty exactly when it has no element.
proof fn lemma_empty_iff_zero(set: Set<u128>)
    requires
        set.finite(),
    ensures
        (set.len() == 0) <==> (set == Set::<u128>::empty()),
{
    if set.len() == 0 {
        assert forall|k: u128| !set.contains(k) by {
            if set.contains(k) {
                assert(set.remove(k).len() + 1 == set.len());
            }
        }
        assert(set =~= Set::<u128>::empty());
    }
}

/// The nodes of a stable prefix are as many as its entries.
proof fn lemma_increasing_length_of_prefix<D: GraphDomain>(s: GraphState<D>, order: Seq<u128>)
    requires
        stable_prefix(s, order),
    ensures
        order.to_set().len() == order.len(),
{
    order.unique_seq_to_set();
}

/// Placing the smallest placeable node extends a stable prefix.
proof fn lemma_stable_push<D: GraphDomain>(s: GraphState<D>, order: Seq<u128>, x: u128)
    requires
        stable_prefix(s, order),
        placeable(s, order.to_set(), x),
        forall|m: u128| placeable(s, order.to_set(), m) ==> x <= m,
    ensures
        stable_prefix(s, order.push(x)),
{
    let longer = order.push(x);
    assert(longer.subrange(0, order.len() as int) =~= order);
    assert forall|i: int| 0 <= i < longer.len() implies placeable(s, longer.subrange(0, i).to_set(), #[trigger] longer[i]) by {
        if i < order.len() {
            assert(longer.subrange(0, i) =~= order.subrange(0, i));
        }
    }
    assert forall|i: int, m: u128|
        #![trigger longer[i], placeable(s, longer.subrange(0, i).to_set(), m)]
        0 <= i < longer.len() && placeable(s, longer.subrange(0, i).to_set(), m) implies longer[i] <= m by {
        if i < order.len() {
            assert(longer.subrange(0, i) =~= order.subrange(0, i));
            assert(order[i] == longer[i]);
        }
    }
    assert forall|a: int, b: int| 0 <= a < longer.len() && 0 <= b < longer.len() && a != b implies longer[a]
        != longer[b] by {
        if a < order.len() && b < order.len() {
        } else if a == order.len() {
            assert(order.contains(longer[b]));
        } else {
            assert(order.contains(longer[a]));
        }
    }
}

/// `order` lists every node once, and every edge goes from an earlier node
/// to a later one.
pub open spec fn topological<D: GraphDomain>(s: GraphState<D>, order: Seq<u128>) -> bool {
    &&& order.no_duplicates()
    &&& order.to_set() == s.nodes.dom()
    &&& forall|e: u128, i: int, j: int|
        #![trigger s.edges[e], order[i], order[j]]
        s.edges.contains_key(e) && 0 <= i < order.len() && 0 <= j < order.len() && order[j]
            == s.edges[e].from.node.key() && order[i] == s.edges[e].to.node.key() ==> j < i
}

/// A stable order of all nodes is a topological order.
pub proof fn lemma_stable_order_is_topological<D: GraphDomain>(s: GraphState<D>, order: Seq<u128>)
    requires
        stable_prefix(s, order),
        order.to_set() == s.nodes.dom(),
    ensures
        topological(s, order),
{
    assert forall|e: u128, i: int, j: int|
        #![trigger s.edges[e], order[i], order[j]]
        s.edges.contains_key(e) && 0 <= i < order.len() && 0 <= j < order.len() && order[j]
            == s.edges[e].from.node.key() && order[i] == s.edges[e].to.node.key() implies j < i by {
        assert(placeable(s, order.subrange(0, i).to_set(), order[i]));
        if !order.subrange(0, i).to_set().contains(order[j]) {
            assert(pending(s, order.subrange(0, i).to_set(), order[i]).contains(e));
        } else {
            let k = choose|k: int| 0 <= k < order.subrange(0, i).len() && order.subrange(0, i)[k] == order[j];
            assert(order[k] == order[j]);
        }
    }
}

/// The first position of `order`, from `from` on, holding an element of
/// `members`, when one holds one at or after `from`.
proof fn lemma_first_member(order: Seq<u128>, members: Set<u128>, from: int) -> (first: int)
    requires
        0 <= from <= order.len(),
        exists|k: int| from <= k < order.len() && members.contains(#[trigger] order[k]),
    ensures
        from <= first < order.len(),
        members.contains(order[first]),
        forall|k: int| from <= k < first ==> !members.contains(#[trigger] order[k]),
    decreases order.len() - from,
{
    if members.contains(order[from]) {
        from
    } else {
        lemma_first_member(order, members, from + 1)
    }
}

/// When ordering stops at a cycle, the graph has no topological order.
pub proof fn lemma_cycle_excludes_topological_order<D: GraphDomain>(
    s: GraphState<D>,
    placed: Seq<u128>,
    remaining: Seq<u128>,
    order: Seq<u128>,
)
    requires
        stopped_by_cycle(s, placed, remaining),
        state_wf(s),
    ensures
        !topological(s, order),
{
    if topological(s, order) {
        let rest = s.nodes.dom().difference(placed.to_set());
        let r0 = remaining[0];
        assert(remaining.contains(r0));
        assert(remaining.to_set().contains(r0));
        assert(rest.contains(r0));
        assert(order.to_set().contains(r0));
        let k0 = choose|k: int| 0 <= k < order.len() && order[k] == r0;
        let first = lemma_first_member(order, rest, 0);
        let r = order[first];
        let e = choose|e: u128|
            s.edges.contains_key(e) && s.edges[e].to.node.key() == r && rest.contains(
                #[trigger] s.edges[e].from.node.key(),
            );
        let f = s.edges[e].from.node.key();
        assert(order.to_set().contains(f));
        let j = choose|j: int| 0 <= j < order.len() && order[j] == f;
        assert(j < first);
        assert(!rest.contains(order[j]));
    }
}

/// Whether `values` never decreases.
pub open spec fn ascending(values: Seq<u128>) -> bool {
    forall|i: int, j: int| 0 <= i < j < values.len() ==> values[i] <= values[j]
}

/// The values of `values` in ascending order.
fn sort_ascending(values: Vec<u128>) -> (sorted: Vec<u128>)
    ensures
        ascending(sorted@),
        sorted@.len() == values@.len(),
        sorted@.to_multiset() == values@.to_multiset(),
{
    let mut sorted: Vec<u128> = Vec::new();
    let mut i: usize = 0;
    assert(values@.take(0) =~= sorted@);
    while i < values.len()
        invariant
            i <= values@.len(),
            ascending(sorted@),
            sorted@.len() == i,
            sorted@.to_multiset() == values@.take(i as int).to_multiset(),
        decreases values@.len() - i,
    {
        let x = values[i];
        let mut pos: usize = 0;
        while pos < sorted.len() && sorted[pos] <= x
            invariant
                pos <= sorted@.len(),
                forall|k: int| 0 <= k < pos ==> sorted@[k] <= x,
            decreases sorted@.len() - pos,
        {
            pos = pos + 1;
        }
        let ghost before = sorted@;
        sorted.insert(pos, x);
        proof {
            assert forall|a: int, b: int| 0 <= a < b < sorted@.len() implies sorted@[a] <= sorted@[b] by {
                if a < pos as int && b > pos as int {
                    assert(before[a] <= x);
                    assert(sorted@[b] == before[b - 1]);
                    if pos < before.len() {
                        assert(x < before[pos as int]);
                        assert(before[pos as int] <= before[b - 1]);
                    }
                } else if a == pos as int {
                    assert(sorted@[b] == before[b - 1]);
                    assert(x < before[pos as int]);
                } else if b == pos as int {
                    assert(before[a] <= x);
                }
            }
            vstd::seq_lib::to_multiset_insert(before, pos as int, x);
            assert(values@.take(i as int + 1) =~= values@.take(i as int).push(x));
            vstd::seq_lib::to_multiset_build(values@.take(i as int), x);
        }
        i = i + 1;
    }
    assert(values@.take(values@.len() as int) =~= values@);
    sorted
}

/// Some edge goes from node `from` to node `to`.
pub open spec fn linked<D: GraphDomain>(s: GraphState<D>, from: u128, to: u128) -> bool {
    exists|e: u128| s.edges.contains_key(e) && s.edges[e].from.node.key() == from && #[trigger] s.edges[e].to.node.key() == to
}

/// An edge goes from the node at position `i` of `p` to the next one.
pub open spec fn step<D: GraphDomain>(s: GraphState<D>, p: Seq<u128>, i: int) -> bool {
    linked(s, p[i], p[i + 1])
}

/// `p` is a walk of nodes of `s` along edges.
pub open spec fn is_path<D: GraphDomain>(s: GraphState<D>, p: Seq<u128>) -> bool {
    &&& p.len() > 0
    &&& forall|i: int| 0 <= i < p.len() ==> s.nodes.contains_key(#[trigger] p[i])
    &&& forall|i: int| 0 <= i < p.len() - 1 ==> #[trigger] step(s, p, i)
}

/// Node `to` can be reached from node `from` by following edges, possibly
/// none: the reflexive-transitive closure of `linked` over the nodes.
pub open spec fn reaches<D: GraphDomain>(s: GraphState<D>, from: u128, to: u128) -> bool {
    exists|p: Seq<u128>| #[trigger] is_path(s, p) && p[0] == from && p.last() == to
}

/// Each of `a` and `b` reaches the other.
pub open spec fn mutually_reach<D: GraphDomain>(s: GraphState<D>, a: u128, b: u128) -> bool {
    reaches(s, a, b) && reaches(s, b, a)
}

/// An edge joins `from` to `to` in the direction of travel: along edges
/// (`forward`) or against them.
pub open spec fn directed_link<D: GraphDomain>(s: GraphState<D>, from: u128, to: u128, forward: bool) -> bool {
    if forward {
        linked(s, from, to)
    } else {
        linked(s, to, from)
    }
}

/// `key` is reached from `root` along edges (`forward`), or reaches `root`.
pub open spec fn directed_reach<D: GraphDomain>(s: GraphState<D>, root: u128, key: u128, forward: bool) -> bool {
    if forward {
        reaches(s, root, key)
    } else {
        reaches(s, key, root)
    }
}

proof fn lemma_reaches_self<D: GraphDomain>(s: GraphState<D>, a: u128)
    requires
        s.nodes.contains_key(a),
    ensures
        reaches(s, a, a),
{
    let p = seq![a];
    assert(is_path(s, p));
}

proof fn lemma_reaches_extend<D: GraphDomain>(s: GraphState<D>, root: u128, x: u128, y: u128, forward: bool)
    requires
        directed_reach(s, root, x, forward),
        directed_link(s, x, y, forward),
        s.nodes.contains_key(y),
    ensures
        directed_reach(s, root, y, forward),
{
    if forward {
        let p = choose|p: Seq<u128>| #[trigger] is_path(s, p) && p[0] == root && p.last() == x;
        let q = p.push(y);
        assert forall|i: int| 0 <= i < q.len() - 1 implies #[trigger] step(s, q, i) by {
            if i < p.len() - 1 {
                assert(step(s, p, i));
            }
        }
        assert(is_path(s, q));
    } else {
        let p = choose|p: Seq<u128>| #[trigger] is_path(s, p) && p[0] == x && p.last() == root;
        let q = seq![y] + p;
        assert forall|i: int| 0 <= i < q.len() - 1 implies #[trigger] step(s, q, i) by {
            if i > 0 {
                assert(step(s, p, i - 1));
            }
        }
        assert(q.last() == p.last());
        assert(is_path(s, q));
    }
}

proof fn lemma_reaches_transitive<D: GraphDomain>(s: GraphState<D>, a: u128, b: u128, c: u128)
    requires
        reaches(s, a, b),
        reaches(s, b, c),
    ensures
        reaches(s, a, c),
{
    let p1 = choose|p: Seq<u128>| #[trigger] is_path(s, p) && p[0] == a && p.last() == b;
    let p2 = choose|p: Seq<u128>| #[trigger] is_path(s, p) && p[0] == b && p.last() == c;
    let q = p1 + p2.drop_first();
    assert forall|i: int| 0 <= i < q.len() implies s.nodes.contains_key(#[trigger] q[i]) by {
        if i >= p1.len() {
            assert(q[i] == p2[i - p1.len() + 1]);
        }
    }
    assert forall|i: int| 0 <= i < q.len() - 1 implies #[trigger] step(s, q, i) by {
        if i < p1.len() - 1 {
            assert(step(s, p1, i));
        } else if i == p1.len() - 1 {
            assert(step(s, p2, 0));
            assert(q[i + 1] == p2[1]);
        } else {
            assert(step(s, p2, i - p1.len() + 1));
            assert(q[i] == p2[i - p1.len() + 1]);
            assert(q[i + 1] == p2[i - p1.len() + 2]);
        }
    }
    if p2.len() == 1 {
        assert(q =~= p1);
    } else {
        assert(q.last() == p2.last());
    }
    assert(is_path(s, q));
}

/// Whether every node that a directed edge leads to from `key` is in `found`.
pub open spec fn closed_at<D: GraphDomain>(s: GraphState<D>, found: Set<u128>, key: u128, forward: bool) -> bool {
    forall|y: u128| #[trigger] directed_link(s, key, y, forward) ==> found.contains(y)
}

proof fn lemma_path_ahead<D: GraphDomain>(s: GraphState<D>, found: Set<u128>, p: Seq<u128>, i: int)
    requires
        is_path(s, p),
        0 <= i < p.len(),
        found.contains(p[0]),
        forall|x: u128| #[trigger] found.contains(x) ==> closed_at(s, found, x, true),
    ensures
        found.contains(p[i]),
    decreases i,
{
    if i > 0 {
        lemma_path_ahead(s, found, p, i - 1);
        assert(step(s, p, i - 1));
        assert(directed_link(s, p[i - 1], p[i], true));
    }
}

proof fn lemma_path_behind<D: GraphDomain>(s: GraphState<D>, found: Set<u128>, p: Seq<u128>, i: int)
    requires
        is_path(s, p),
        0 <= i < p.len(),
        found.contains(p.last()),
        forall|x: u128| #[trigger] found.contains(x) ==> closed_at(s, found, x, false),
    ensures
        found.contains(p[i]),
    decreases p.len() - i,
{
    if i < p.len() - 1 {
        lemma_path_behind(s, found, p, i + 1);
        assert(step(s, p, i));
        assert(directed_link(s, p[i + 1], p[i], false));
    }
}

/// A set that holds `root` and is closed along directed edges holds every
/// node that `root` reaches (or that reaches `root`).
proof fn lemma_closed_holds_reached<D: GraphDomain>(
    s: GraphState<D>,
    found: Set<u128>,
    root: u128,
    key: u128,
    forward: bool,
)
    requires
        found.contains(root),
        forall|x: u128| #[trigger] found.contains(x) ==> closed_at(s, found, x, forward),
        directed_reach(s, root, key, forward),
    ensures
        found.contains(key),
{
    if forward {
        let p = choose|p: Seq<u128>| #[trigger] is_path(s, p) && p[0] == root && p.last() == key;
        lemma_path_ahead(s, found, p, p.len() - 1);
    } else {
        let p = choose|p: Seq<u128>| #[trigger] is_path(s, p) && p[0] == key && p.last() == root;
        lemma_path_behind(s, found, p, 0);
    }
}

/// Every node that a directed edge leads to from `x` is among the
/// neighbour keys of `x`.
proof fn lemma_neighbours_complete<D: GraphDomain>(s: GraphState<D>, x: u128, y: u128, forward: bool, keys: Seq<u128>)
    requires
        s.edges.dom().finite(),
        keys.to_multiset() == edge_ends(s, x, forward).to_multiset(),
        directed_link(s, x, y, forward),
    ensures
        keys.contains(y),
{
    let set = if forward {
        outgoing_of(s.edges, x)
    } else {
        incoming_of(s.edges, x)
    };
    assert(set.subset_of(s.edges.dom()));
    vstd::set_lib::lemma_len_subset(set, s.edges.dom());
    lemma_sorted_keys_exist(set);
    let order = sorted_keys(set);
    let e = if forward {
        choose|e: u128| s.edges.contains_key(e) && s.edges[e].from.node.key() == x && #[trigger] s.edges[e].to.node.key() == y
    } else {
        choose|e: u128| s.edges.contains_key(e) && s.edges[e].from.node.key() == y && #[trigger] s.edges[e].to.node.key() == x
    };
    assert(set.contains(e));
    assert(order.to_set().contains(e));
    assert(order.contains(e));
    let m = choose|m: int| 0 <= m < order.len() && order[m] == e;
    let ends = edge_ends(s, x, forward);
    assert(ends[m] == y);
    assert(ends.contains(y));
    vstd::seq_lib::to_multiset_contains(ends, y);
    vstd::seq_lib::to_multiset_contains(keys, y);
}

/// The nodes reached from `root` along edges (`forward`), or that reach
/// `root`, by a depth-first walk.
#[verifier::spinoff_prover]
fn reach_set<D: GraphDomain>(graph: &GraphDocument<D>, root: u128, forward: bool) -> (found: BTreeSet<u128>)
    requires
        graph.wf(),
        graph@.nodes.contains_key(root),
    ensures
        forall|k: u128| #[trigger] found@.contains(k) <==> graph@.nodes.contains_key(k) && directed_reach(graph@, root, k, forward),
{
    let ghost s = graph@;
    proof {
        graph.lemma_wf_content();
        graph.lemma_finite();
        lemma_reaches_self(s, root);
    }
    let mut found: BTreeSet<u128> = BTreeSet::new();
    found.insert(root);
    let mut stack: Vec<u128> = Vec::new();
    stack.push(root);
    proof {
        assert(stack@[0] == root);
        assert forall|k: u128| #[trigger] found@.contains(k) implies stack@.contains(k) || closed_at(s, found@, k, forward) by {
            assert(k == root);
        }
    }
    while stack.len() > 0
        invariant
            graph.wf(),
            s == graph@,
            state_wf(s),
            s.nodes.dom().finite(),
            s.edges.dom().finite(),
            found@.contains(root),
            found@.subset_of(s.nodes.dom()),
            forall|k: u128| #[trigger] found@.contains(k) ==> directed_reach(s, root, k, forward),
            forall|m: int| 0 <= m < stack@.len() ==> found@.contains(#[trigger] stack@[m]),
            stack@.no_duplicates(),
            forall|k: u128| #[trigger] found@.contains(k) ==> stack@.contains(k) || closed_at(s, found@, k, forward),
        decreases s.nodes.dom().difference(found@).len(), stack@.len(),
    {
        let ghost before_found = found@;
        let ghost before_stack = stack@;
        let x = match stack.pop() {
            Some(x) => x,
            None => {
                assert(false);
                0
            },
        };
        let ghost popped = stack@;
        proof {
            assert(popped == before_stack.drop_last());
            assert(before_stack.last() == x);
            assert(!popped.contains(x)) by {
                if popped.contains(x) {
                    let m = choose|m: int| 0 <= m < popped.len() && popped[m] == x;
                    assert(before_stack[m] == before_stack[before_stack.len() - 1]);
                }
            }
            assert(found@.contains(x)) by {
                assert(found@.contains(before_stack[before_stack.len() - 1]));
            }
            assert forall|k: u128| #[trigger] found@.contains(k) implies k == x || popped.contains(k) || closed_at(
                s,
                found@,
                k,
                forward,
            ) by {
                if before_stack.contains(k) && k != x {
                    let m = choose|m: int| 0 <= m < before_stack.len() && before_stack[m] == k;
                    assert(m < before_stack.len() - 1);
                    assert(popped[m] == k);
                }
            }
        }
        let next = neighbour_keys(graph, x, forward);
        let mut t: usize = 0;
        while t < next.len()
            invariant
                graph.wf(),
                s == graph@,
                state_wf(s),
                s.nodes.dom().finite(),
                t <= next@.len(),
                forall|m: int| 0 <= m < next@.len() ==> s.nodes.contains_key(#[trigger] next@[m]),
                forall|m: int|
                    0 <= m < next@.len() ==> if forward {
                        linked(s, x, #[trigger] next@[m])
                    } else {
                        linked(s, next@[m], x)
                    },
                found@.contains(root),
                found@.contains(x),
                found@.subset_of(s.nodes.dom()),
                before_found.subset_of(found@),
                forall|k: u128| #[trigger] found@.contains(k) ==> directed_reach(s, root, k, forward),
                forall|m: int| 0 <= m < stack@.len() ==> found@.contains(#[trigger] stack@[m]),
                stack@.no_duplicates(),
                !stack@.contains(x),
                forall|k: u128|
                    #[trigger] found@.contains(k) ==> k == x || stack@.contains(k) || closed_at(s, found@, k, forward),
                forall|m: int| 0 <= m < t ==> found@.contains(#[trigger] next@[m]),
                (found@ == before_found && stack@ == popped) || s.nodes.dom().difference(found@).len() < s.nodes.dom().difference(
                    before_found,
                ).len(),
            decreases next@.len() - t,
        {
            let y = next[t];
            if !found.contains(&y) {
                let ghost old_found = found@;
                let ghost old_stack = stack@;
                proof {
                    assert(directed_link(s, x, y, forward));
                    lemma_reaches_extend(s, root, x, y, forward);
                    assert(s.nodes.dom().difference(old_found.insert(y)) =~= s.nodes.dom().difference(old_found).remove(y));
                    assert(s.nodes.dom().difference(old_found).contains(y));
                    vstd::set_lib::lemma_len_subset(s.nodes.dom().difference(old_found), s.nodes.dom().difference(before_found));
                }
                found.insert(y);
                stack.push(y);
                proof {
                    assert(stack@ == old_stack.push(y));
                    assert forall|m: int| 0 <= m < stack@.len() implies found@.contains(#[trigger] stack@[m]) by {
                        if m < old_stack.len() {
                            assert(stack@[m] == old_stack[m]);
                        }
                    }
                    assert forall|k: u128| #[trigger] found@.contains(k) implies k == x || stack@.contains(k) || closed_at(
                        s,
                        found@,
                        k,
                        forward,
                    ) by {
                        if k == y {
                            assert(stack@[stack@.len() - 1] == y);
                        } else if old_stack.contains(k) {
                            let m = choose|m: int| 0 <= m < old_stack.len() && old_stack[m] == k;
                            assert(stack@[m] == k);
                        } else if k != x {
                            assert(closed_at(s, old_found, k, forward));
                        }
                    }
                    assert(!stack@.contains(x)) by {
                        if stack@.contains(x) {
                            let m = choose|m: int| 0 <= m < stack@.len() && stack@[m] == x;
                            if m < old_stack.len() {
                                assert(old_stack[m] == x);
                            }
                        }
                    }
                    assert(stack@.no_duplicates()) by {
                        assert forall|a: int, b: int| 0 <= a < stack@.len() && 0 <= b < stack@.len() && a != b implies stack@[a]
                            != stack@[b] by {
                            if a == old_stack.len() as int {
                                assert(found@.contains(y));
                                assert(old_found.contains(stack@[b]));
                            } else if b == old_stack.len() as int {
                                assert(old_found.contains(stack@[a]));
                            } else {
                                assert(stack@[a] == old_stack[a]);
                                assert(stack@[b] == old_stack[b]);
                            }
                        }
                    }
                }
            }
            t = t + 1;
        }
        proof {
            assert(closed_at(s, found@, x, forward)) by {
                assert forall|y: u128| #[trigger] directed_link(s, x, y, forward) implies found@.contains(y) by {
                    lemma_neighbours_complete(s, x, y, forward, next@);
                    let m = choose|m: int| 0 <= m < next@.len() && next@[m] == y;
                    assert(found@.contains(next@[m]));
                }
            }
        }
    }
    proof {
        assert forall|k: u128| s.nodes.contains_key(k) && directed_reach(s, root, k, forward) implies #[trigger] found@.contains(k) by {
            assert forall|x: u128| #[trigger] found@.contains(x) implies closed_at(s, found@, x, forward) by {
                assert(!stack@.contains(x));
            }
            lemma_closed_holds_reached(s, found@, root, k, forward);
        }
    }
    found
}

/// The nodes that the edges leaving `node` lead to (`forward`), or that the
/// edges entering `node` come from, one per edge, in increasing edge order.
pub open spec fn edge_ends<D: GraphDomain>(s: GraphState<D>, node: u128, forward: bool) -> Seq<u128> {
    if forward {
        sorted_keys(outgoing_of(s.edges, node)).map_values(|e: u128| s.edges[e].to.node.key())
    } else {
        sorted_keys(incoming_of(s.edges, node)).map_values(|e: u128| s.edges[e].from.node.key())
    }
}

/// The nodes an edge leads to from `node` (`forward`), or from which an
/// edge leads to `node`, one per edge, in ascending order.
fn neighbour_keys<D: GraphDomain>(graph: &GraphDocument<D>, node: u128, forward: bool) -> (keys: Vec<u128>)
    requires
        graph.wf(),
    ensures
        ascending(keys@),
        keys@.to_multiset() == edge_ends(graph@, node, forward).to_multiset(),
        forall|m: int| 0 <= m < keys@.len() ==> graph@.nodes.contains_key(#[trigger] keys@[m]),
        forall|m: int|
            0 <= m < keys@.len() ==> if forward {
                linked(graph@, node, #[trigger] keys@[m])
            } else {
                linked(graph@, keys@[m], node)
            },
{
    proof {
        graph.lemma_wf_content();
    }
    let id = GraphNodeId(EntityId(node));
    let edges = if forward {
        graph.outgoing_edges(id)
    } else {
        graph.incoming_edges(id)
    };
    let ghost edge_keys = if forward {
        sorted_keys(outgoing_of(graph@.edges, node))
    } else {
        sorted_keys(incoming_of(graph@.edges, node))
    };
    let mut collected: Vec<u128> = Vec::new();
    let mut i: usize = 0;
    while i < edges.len()
        invariant
            i <= edges@.len(),
            edges@.len() == edge_keys.len(),
            forward ==> edge_keys.to_set() == outgoing_of(graph@.edges, node),
            !forward ==> edge_keys.to_set() == incoming_of(graph@.edges, node),
            forall|m: int| 0 <= m < edges@.len() ==> *(#[trigger] edges@[m]) == graph@.edges[edge_keys[m]],
            state_wf(graph@),
            edge_keys == if forward {
                sorted_keys(outgoing_of(graph@.edges, node))
            } else {
                sorted_keys(incoming_of(graph@.edges, node))
            },
            collected@ == edge_ends(graph@, node, forward).take(i as int),
            collected@.len() == i,
            forall|m: int| 0 <= m < i ==> graph@.nodes.contains_key(#[trigger] collected@[m]),
            forall|m: int|
                0 <= m < i ==> if forward {
                    linked(graph@, node, #[trigger] collected@[m])
                } else {
                    linked(graph@, collected@[m], node)
                },
        decreases edges@.len() - i,
    {
        let edge = edges[i];
        let ghost e = edge_keys[i as int];
        proof {
            assert(edge_keys.contains(e));
            assert(edge_keys.to_set().contains(e));
            assert(graph@.edges.contains_key(e));
        }
        let key = if forward {
            edge.to.node.0.0
        } else {
            edge.from.node.0.0
        };
        collected.push(key);
        assert(collected@ =~= edge_ends(graph@, node, forward).take(i as int + 1));
        i = i + 1;
    }
    assert(collected@ =~= edge_ends(graph@, node, forward));
    let ghost unsorted = collected@;
    let sorted = sort_ascending(collected);
    proof {
        assert forall|m: int| 0 <= m < sorted@.len() implies graph@.nodes.contains_key(#[trigger] sorted@[m])
            && if forward {
            linked(graph@, node, sorted@[m])
        } else {
            linked(graph@, sorted@[m], node)
        } by {
            sorted@.to_multiset_ensures();
            unsorted.to_multiset_ensures();
            assert(sorted@.contains(sorted@[m]));
            assert(sorted@.to_multiset().count(sorted@[m]) > 0);
            assert(unsorted.to_multiset() == sorted@.to_multiset());
            assert(unsorted.to_multiset().count(sorted@[m]) > 0);
            assert(unsorted.contains(sorted@[m]));
            let k = choose|k: int| 0 <= k < unsorted.len() && unsorted[k] == sorted@[m];
            assert(graph@.nodes.contains_key(unsorted[k]));
        }
    }
    sorted
}

/// Some component holds `key`.
pub open spec fn covered(components: Seq<Seq<u128>>, key: u128) -> bool {
    exists|i: int| 0 <= i < components.len() && #[trigger] components[i].contains(key)
}

/// No key is in two components.
pub open spec fn pairwise_disjoint(components: Seq<Seq<u128>>) -> bool {
    forall|i: int, j: int, k: u128|
        #![trigger components[i].contains(k), components[j].contains(k)]
        0 <= i < components.len() && 0 <= j < components.len() && i != j && components[i].contains(k)
            ==> !components[j].contains(k)
}

/// `components` split `nodes`: each is non-empty and strictly increasing,
/// no node is in two, every node is in one, and they come in increasing
/// order of their first node.
pub open spec fn sorted_partition(nodes: Set<u128>, components: Seq<Seq<u128>>) -> bool {
    &&& forall|i: int|
        0 <= i < components.len() ==> (#[trigger] components[i]).len() > 0 && strictly_increasing(components[i])
    &&& forall|i: int, j: int| 0 <= i < j < components.len() ==> components[i][0] < components[j][0]
    &&& pairwise_disjoint(components)
    &&& forall|k: u128| nodes.contains(k) <==> covered(components, k)
}

/// The contents of each vector.
pub open spec fn views(vectors: Seq<Vec<u128>>) -> Seq<Seq<u128>> {
    vectors.map_values(|v: Vec<u128>| v@)
}

/// Some component holds both `a` and `b`.
pub open spec fn same_component(components: Seq<Seq<u128>>, a: u128, b: u128) -> bool {
    exists|i: int| 0 <= i < components.len() && #[trigger] components[i].contains(a) && components[i].contains(b)
}

/// Each component is the set of nodes that its first node and they reach
/// each other.
pub open spec fn classes_by_first<D: GraphDomain>(s: GraphState<D>, components: Seq<Seq<u128>>) -> bool {
    forall|t: int, k: u128|
        0 <= t < components.len() ==> (#[trigger] components[t].contains(k) <==> s.nodes.contains_key(k)
            && mutually_reach(s, components[t][0], k))
}

proof fn lemma_mutual_symmetric_transitive<D: GraphDomain>(s: GraphState<D>, a: u128, b: u128, c: u128)
    ensures
        mutually_reach(s, a, b) ==> mutually_reach(s, b, a),
        mutually_reach(s, a, b) && mutually_reach(s, b, c) ==> mutually_reach(s, a, c),
{
    if mutually_reach(s, a, b) && mutually_reach(s, b, c) {
        lemma_reaches_transitive(s, a, b, c);
        lemma_reaches_transitive(s, c, b, a);
    }
}

/// Groups the nodes `keys`, given in increasing order, into the sets of
/// nodes that reach each other: for each node not yet grouped, in order,
/// the nodes that it reaches and that reach it.
#[verifier::spinoff_prover]
fn gather_classes<D: GraphDomain>(graph: &GraphDocument<D>, keys: &Vec<u128>) -> (components: Vec<Vec<u128>>)
    requires
        graph.wf(),
        strictly_increasing(keys@),
        keys@.to_set() == graph@.nodes.dom(),
    ensures
        sorted_partition(graph@.nodes.dom(), views(components@)),
        classes_by_first(graph@, views(components@)),
{
    let ghost s = graph@;
    let ghost q = keys@;
    proof {
        graph.lemma_wf_content();
    }
    let mut assigned: BTreeSet<u128> = BTreeSet::new();
    let mut components: Vec<Vec<u128>> = Vec::new();
    let ghost mut roots: Seq<int> = Seq::empty();
    let n = keys.len();
    let mut i: usize = 0;
    while i < n
        invariant
            graph.wf(),
            s == graph@,
            q == keys@,
            n == q.len(),
            i <= n,
            strictly_increasing(q),
            q.to_set() == s.nodes.dom(),
            forall|k: u128|
                #[trigger] assigned@.contains(k) <==> s.nodes.contains_key(k) && exists|j: int|
                    0 <= j < i && #[trigger] mutually_reach(s, q[j], k),
            forall|t: int| 0 <= t < components@.len() ==> (#[trigger] views(components@)[t]).len() > 0
                && strictly_increasing(views(components@)[t]),
            classes_by_first(s, views(components@)),
            roots.len() == components@.len(),
            forall|t: int| 0 <= t < roots.len() ==> 0 <= #[trigger] roots[t] < i && q[roots[t]] == views(components@)[t][0],
            forall|t: int, u: int| 0 <= t < u < roots.len() ==> roots[t] < roots[u],
            forall|k: u128| #[trigger] assigned@.contains(k) ==> covered(views(components@), k),
        decreases n - i,
    {
        let r = keys[i];
        proof {
            assert(q.contains(r));
            assert(s.nodes.contains_key(r));
            lemma_reaches_self(s, r);
        }
        if assigned.contains(&r) {
            proof {
                let j0 = choose|j: int| 0 <= j < i && #[trigger] mutually_reach(s, q[j], r);
                assert forall|k: u128| #[trigger] assigned@.contains(k) <==> s.nodes.contains_key(k) && exists|j: int|
                    0 <= j < i + 1 && #[trigger] mutually_reach(s, q[j], k) by {
                    if s.nodes.contains_key(k) && mutually_reach(s, q[i as int], k) {
                        lemma_mutual_symmetric_transitive(s, q[j0], r, k);
                        assert(mutually_reach(s, q[j0], k));
                    }
                    if assigned@.contains(k) {
                        let j = choose|j: int| 0 <= j < i && #[trigger] mutually_reach(s, q[j], k);
                        assert(0 <= j < i + 1 && mutually_reach(s, q[j], k));
                    }
                }
            }
        } else {
            let ahead = reach_set(graph, r, true);
            let behind = reach_set(graph, r, false);
            proof {
                assert forall|j: int| 0 <= j < i implies !mutually_reach(s, q[j], r) by {
                    assert(q.contains(q[j]));
                    if mutually_reach(s, q[j], r) {
                        assert(assigned@.contains(r));
                    }
                }
            }
            let ghost before = assigned@;
            let mut class: Vec<u128> = Vec::new();
            let mut m: usize = i;
            while m < n
                invariant
                    graph.wf(),
                    s == graph@,
                    q == keys@,
                    n == q.len(),
                    i <= m <= n,
                    i < n,
                    r == q[i as int],
                    strictly_increasing(q),
                    q.to_set() == s.nodes.dom(),
                    s.nodes.contains_key(r),
                    mutually_reach(s, r, r),
                    forall|k: u128| #[trigger] ahead@.contains(k) <==> s.nodes.contains_key(k) && reaches(s, r, k),
                    forall|k: u128| #[trigger] behind@.contains(k) <==> s.nodes.contains_key(k) && reaches(s, k, r),
                    strictly_increasing(class@),
                    m > i ==> class@.len() > 0 && class@[0] == r,
                    forall|x: int| 0 <= x < class@.len() ==> exists|y: int| i <= y < m && q[y] == #[trigger] class@[x],
                    forall|y: int| i <= y < m ==> (class@.contains(#[trigger] q[y]) <==> mutually_reach(s, r, q[y])),
                    forall|x: int| 0 <= x < class@.len() ==> mutually_reach(s, r, #[trigger] class@[x]),
                    forall|k: u128| #[trigger] assigned@.contains(k) <==> before.contains(k) || class@.contains(k),
                decreases n - m,
            {
                let k = keys[m];
                proof {
                    assert(q.contains(k));
                    assert(s.nodes.contains_key(k));
                }
                if ahead.contains(&k) && behind.contains(&k) {
                    let ghost old_class = class@;
                    class.push(k);
                    assigned.insert(k);
                    proof {
                        assert forall|a: int, b: int| 0 <= a < b < class@.len() implies class@[a] < class@[b] by {
                            if b == class@.len() - 1 {
                                let y = choose|y: int| i <= y < m && q[y] == #[trigger] old_class[a];
                                assert(class@[a] == old_class[a]);
                            } else {
                                assert(class@[a] == old_class[a] && class@[b] == old_class[b]);
                            }
                        }
                        assert forall|x: int| 0 <= x < class@.len() implies exists|y: int| i <= y < m + 1 && q[y]
                            == #[trigger] class@[x] by {
                            if x < old_class.len() {
                                let y = choose|y: int| i <= y < m && q[y] == #[trigger] old_class[x];
                                assert(class@[x] == old_class[x]);
                            } else {
                                assert(q[m as int] == class@[x]);
                            }
                        }
                        assert forall|y: int| i <= y < m + 1 implies (class@.contains(#[trigger] q[y]) <==> mutually_reach(
                            s,
                            r,
                            q[y],
                        )) by {
                            if y < m {
                                if class@.contains(q[y]) && !old_class.contains(q[y]) {
                                    assert(q[y] == k);
                                    assert(q[y] == q[m as int]);
                                }
                                if old_class.contains(q[y]) {
                                    let x = choose|x: int| 0 <= x < old_class.len() && old_class[x] == q[y];
                                    assert(class@[x] == q[y]);
                                }
                            } else {
                                assert(class@[class@.len() - 1] == q[y]);
                            }
                        }
                        assert forall|x: int| 0 <= x < class@.len() implies mutually_reach(s, r, #[trigger] class@[x]) by {
                            if x < old_class.len() {
                                assert(class@[x] == old_class[x]);
                            }
                        }
                        assert forall|kk: u128| #[trigger] assigned@.contains(kk) <==> before.contains(kk) || class@.contains(kk) by {
                            if class@.contains(kk) && !old_class.contains(kk) {
                                let x = choose|x: int| 0 <= x < class@.len() && class@[x] == kk;
                                assert(x == class@.len() - 1);
                            }
                            if old_class.contains(kk) {
                                let x = choose|x: int| 0 <= x < old_class.len() && old_class[x] == kk;
                                assert(class@[x] == kk);
                            }
                            if kk == k {
                                assert(class@[class@.len() - 1] == k);
                            }
                        }
                        if m == i {
                            assert(class@[0] == r);
                        }
                    }
                } else {
                    proof {
                        assert(!mutually_reach(s, r, k));
                        assert forall|y: int| i <= y < m + 1 implies (class@.contains(#[trigger] q[y]) <==> mutually_reach(
                            s,
                            r,
                            q[y],
                        )) by {
                            if y == m && class@.contains(q[y]) {
                                let x = choose|x: int| 0 <= x < class@.len() && class@[x] == q[y];
                                assert(mutually_reach(s, r, class@[x]));
                            }
                        }
                        if m == i {
                            assert(false);
                        }
                    }
                }
                m = m + 1;
            }
            let ghost old_components = views(components@);
            proof {
                assert forall|k: u128| #[trigger] class@.contains(k) <==> s.nodes.contains_key(k) && mutually_reach(s, r, k) by {
                    if class@.contains(k) {
                        let x = choose|x: int| 0 <= x < class@.len() && class@[x] == k;
                        let y = choose|y: int| i <= y < n && q[y] == #[trigger] class@[x];
                        assert(q.contains(k));
                    }
                    if s.nodes.contains_key(k) && mutually_reach(s, r, k) {
                        assert(q.to_set().contains(k));
                        assert(q.contains(k));
                        let y = choose|y: int| 0 <= y < q.len() && q[y] == k;
                        if y < i {
                            lemma_mutual_symmetric_transitive(s, r, k, k);
                            lemma_mutual_symmetric_transitive(s, k, r, r);
                            assert(mutually_reach(s, q[y], r));
                        }
                    }
                }
            }
            components.push(class);
            proof {
                roots = roots.push(i as int);
                let now = views(components@);
                assert(now =~= old_components.push(class@));
                assert(classes_by_first(s, now)) by {
                    assert forall|t: int, k: u128| 0 <= t < now.len() implies (#[trigger] now[t].contains(k)
                        <==> s.nodes.contains_key(k) && mutually_reach(s, now[t][0], k)) by {
                        if t < old_components.len() {
                            assert(now[t] == old_components[t]);
                        }
                    }
                }
                assert forall|k: u128| #[trigger] assigned@.contains(k) <==> s.nodes.contains_key(k) && exists|j: int|
                    0 <= j < i + 1 && #[trigger] mutually_reach(s, q[j], k) by {
                    if class@.contains(k) {
                        assert(mutually_reach(s, q[i as int], k));
                    }
                    if s.nodes.contains_key(k) && (exists|j: int| 0 <= j < i + 1 && #[trigger] mutually_reach(s, q[j], k)) {
                        let j = choose|j: int| 0 <= j < i + 1 && #[trigger] mutually_reach(s, q[j], k);
                        if j < i {
                            assert(before.contains(k));
                        } else {
                            assert(class@.contains(k));
                        }
                    }
                    if before.contains(k) {
                        let j = choose|j: int| 0 <= j < i && #[trigger] mutually_reach(s, q[j], k);
                        assert(0 <= j < i + 1);
                    }
                }
                assert forall|t: int| 0 <= t < now.len() implies (#[trigger] now[t]).len() > 0 && strictly_increasing(now[t]) by {
                    if t < old_components.len() {
                        assert(now[t] == old_components[t]);
                    }
                }
                assert forall|t: int| 0 <= t < roots.len() implies 0 <= #[trigger] roots[t] < i + 1 && q[roots[t]] == now[t][0] by {
                    if t < old_components.len() {
                        assert(now[t] == old_components[t]);
                    }
                }
                assert forall|k: u128| #[trigger] assigned@.contains(k) implies covered(now, k) by {
                    if class@.contains(k) {
                        assert(now[now.len() - 1] == class@);
                    } else {
                        let t = choose|t: int| 0 <= t < old_components.len() && #[trigger] old_components[t].contains(k);
                        assert(now[t] == old_components[t]);
                    }
                }
            }
        }
        i = i + 1;
    }
    proof {
        let v = views(components@);
        assert forall|t: int, u: int| 0 <= t < u < v.len() implies v[t][0] < v[u][0] by {
            assert(q[roots[t]] < q[roots[u]]);
        }
        assert(pairwise_disjoint(v)) by {
            assert forall|t: int, u: int, k: u128|
                #![trigger v[t].contains(k), v[u].contains(k)]
                0 <= t < v.len() && 0 <= u < v.len() && t != u && v[t].contains(k) implies !v[u].contains(k) by {
                if v[u].contains(k) {
                    assert(v[t].contains(v[t][0]));
                    assert(v[u].contains(v[u][0]));
                    lemma_mutual_symmetric_transitive(s, v[t][0], k, k);
                    lemma_mutual_symmetric_transitive(s, k, v[t][0], v[t][0]);
                    lemma_mutual_symmetric_transitive(s, v[u][0], k, v[t][0]);
                    // Both classes are the class of one node, so their first nodes coincide.
                    assert(mutually_reach(s, v[u][0], v[t][0]));
                    lemma_mutual_symmetric_transitive(s, v[u][0], v[t][0], v[t][0]);
                    assert(v[u].contains(v[t][0]));
                    assert(v[t].contains(v[u][0])) by {
                        lemma_mutual_symmetric_transitive(s, v[t][0], v[u][0], v[u][0]);
                    }
                    lemma_first_is_least(v[t], v[u][0]);
                    lemma_first_is_least(v[u], v[t][0]);
                    if t < u {
                        assert(v[t][0] < v[u][0]);
                    } else {
                        assert(v[u][0] < v[t][0]);
                    }
                }
            }
        }
        assert forall|k: u128| s.nodes.dom().contains(k) <==> covered(v, k) by {
            if s.nodes.dom().contains(k) {
                assert(q.to_set().contains(k));
                assert(q.contains(k));
                let y = choose|y: int| 0 <= y < q.len() && q[y] == k;
                lemma_reaches_self(s, k);
                assert(mutually_reach(s, q[y], k));
                assert(assigned@.contains(k));
            }
            if covered(v, k) {
                let t = choose|t: int| 0 <= t < v.len() && #[trigger] v[t].contains(k);
            }
        }
    }
    components
}

/// Components that split the nodes, each the nodes that its first node and
/// they reach each other, group exactly the nodes that reach each other.
proof fn lemma_classes_are_components<D: GraphDomain>(s: GraphState<D>, v: Seq<Seq<u128>>)
    requires
        sorted_partition(s.nodes.dom(), v),
        classes_by_first(s, v),
    ensures
        forall|a: u128, b: u128|
            s.nodes.contains_key(a) && s.nodes.contains_key(b) ==> (same_component(v, a, b)
                <==> #[trigger] mutually_reach(s, a, b)),
{
    assert forall|a: u128, b: u128|
        s.nodes.contains_key(a) && s.nodes.contains_key(b) implies (same_component(v, a, b)
        <==> #[trigger] mutually_reach(s, a, b)) by {
        if same_component(v, a, b) {
            let t = choose|t: int| 0 <= t < v.len() && #[trigger] v[t].contains(a) && v[t].contains(b);
            lemma_mutual_symmetric_transitive(s, v[t][0], a, a);
            lemma_mutual_symmetric_transitive(s, a, v[t][0], b);
        }
        if mutually_reach(s, a, b) {
            assert(s.nodes.dom().contains(a));
            assert(covered(v, a));
            let t = choose|t: int| 0 <= t < v.len() && #[trigger] v[t].contains(a);
            lemma_mutual_symmetric_transitive(s, v[t][0], a, b);
            assert(v[t].contains(b));
        }
    }
}

/// The first element of a strictly increasing sequence is not above any of
/// its elements.
proof fn lemma_first_is_least(values: Seq<u128>, k: u128)
    requires
        strictly_increasing(values),
        values.contains(k),
    ensures
        values[0] <= k,
{
    let x = choose|x: int| 0 <= x < values.len() && values[x] == k;
    if x > 0 {
        assert(values[0] < values[x]);
    }
}

/// The components of a list of node-identity vectors, as keys.
pub open spec fn component_keys(components: Seq<Vec<GraphNodeId>>) -> Seq<Seq<u128>> {
    components.map_values(|c: Vec<GraphNodeId>| node_keys(c@))
}

/// The strongly connected components: the nodes split into sets whose
/// members each reach every other, each in increasing order, the components
/// in increasing order of their first node.
#[verifier::rlimit(40)]
#[verifier::spinoff_prover]
pub fn strongly_connected_components<D: GraphDomain>(graph: &GraphDocument<D>) -> (components: Vec<Vec<GraphNodeId>>)
    requires
        graph.wf(),
    ensures
        sorted_partition(graph@.nodes.dom(), component_keys(components@)),
        forall|a: u128, b: u128|
            graph@.nodes.contains_key(a) && graph@.nodes.contains_key(b) ==> (same_component(
                component_keys(components@),
                a,
                b,
            ) <==> #[trigger] mutually_reach(graph@, a, b)),
{
    proof {
        graph.lemma_wf_content();
    }
    let nodes = graph.nodes();
    let mut keys: Vec<u128> = Vec::new();
    let mut j: usize = 0;
    while j < nodes.len()
        invariant
            j <= nodes@.len(),
            nodes@.len() == sorted_keys(graph@.nodes.dom()).len(),
            forall|m: int| 0 <= m < nodes@.len() ==> *(#[trigger] nodes@[m]) == graph@.nodes[sorted_keys(graph@.nodes.dom())[m]],
            sorted_keys(graph@.nodes.dom()).to_set() == graph@.nodes.dom(),
            state_wf(graph@),
            keys@ == sorted_keys(graph@.nodes.dom()).take(j as int),
        decreases nodes@.len() - j,
    {
        proof {
            let q = sorted_keys(graph@.nodes.dom());
            assert(q.contains(q[j as int]));
            assert(q.to_set().contains(q[j as int]));
            assert(graph@.nodes.contains_key(q[j as int]));
        }
        keys.push(nodes[j].id.0.0);
        assert(keys@ =~= sorted_keys(graph@.nodes.dom()).take(j + 1));
        j = j + 1;
    }
    proof {
        let q = sorted_keys(graph@.nodes.dom());
        assert(q.take(q.len() as int) =~= q);
    }
    let ordered = gather_classes(graph, &keys);
    let mut components: Vec<Vec<GraphNodeId>> = Vec::new();
    let mut i: usize = 0;
    while i < ordered.len()
        invariant
            i <= ordered@.len(),
            component_keys(components@) == views(ordered@).subrange(0, i as int),
        decreases ordered@.len() - i,
    {
        let keys = &ordered[i];
        let mut ids: Vec<GraphNodeId> = Vec::new();
        let mut m: usize = 0;
        while m < keys.len()
            invariant
                m <= keys@.len(),
                node_keys(ids@) == keys@.subrange(0, m as int),
            decreases keys@.len() - m,
        {
            let ghost before_ids = ids@;
            ids.push(GraphNodeId(EntityId(keys[m])));
            assert(ids@ == before_ids.push(GraphNodeId(EntityId(keys@[m as int]))));
            assert(node_keys(ids@) =~= node_keys(before_ids).push(keys@[m as int]));
            assert(node_keys(ids@) =~= keys@.subrange(0, m + 1));
            m = m + 1;
        }
        assert(keys@.subrange(0, keys@.len() as int) =~= keys@);
        let ghost before_components = components@;
        components.push(ids);
        assert(components@ == before_components.push(ids));
        assert(views(ordered@)[i as int] == keys@);
        assert(component_keys(components@) =~= component_keys(before_components).push(keys@));
        assert(component_keys(components@) =~= views(ordered@).subrange(0, i + 1));
        i = i + 1;
    }
    assert(views(ordered@).subrange(0, ordered@.len() as int) =~= views(ordered@));
    proof {
        assert(component_keys(components@) == views(ordered@));
        lemma_classes_are_components(graph@, component_keys(components@));
    }
    components
}

} // verus!
