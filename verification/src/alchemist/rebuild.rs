//! The graph of a formula file, rebuilt: the operations that a file's record
//! turns into reproduce the graph that was recorded.

use vstd::prelude::*;
use crate::model::Revision;
use crate::graph::document::{GraphEdge, GraphNode, GraphState, state_wf};
use crate::graph::keys::{lemma_sorted_keys_exist, sorted_keys};
use crate::graph::presentation::{GraphComment, GraphGroup, NodePresentation, ViewportBookmark};
use crate::graph::transaction::{GraphOperation, lemma_effect_concat, transaction_effect};
use super::{AlchemistGraphDomain, same_node};
use super::codec::{
    bookmark_upserts, comment_upserts, connect_operations, group_upserts, in_key_order, insert_operations,
    ordered_edges, rebuild_operations, records, FormulaFileV1, FormulaNodeV1,
};
use super::compiler::ordered_nodes;
use super::formula::AlchemistFormula;

verus! {

/// The entries of `m` at the keys `q`, in the order of `q`.
pub open spec fn values_at<V>(m: Map<u128, V>, q: Seq<u128>) -> Seq<V> {
    q.map_values(|k: u128| m[k])
}

/// The map made by inserting the entries of `m` at the keys `q`, in order.
pub open spec fn fill<V>(m: Map<u128, V>, q: Seq<u128>) -> Map<u128, V>
    decreases q.len(),
{
    if q.len() == 0 {
        Map::empty()
    } else {
        fill(m, q.drop_last()).insert(q.last(), m[q.last()])
    }
}

/// The nodes that inserting `nodes` in order adds.
pub open spec fn nodes_of(nodes: Seq<FormulaNodeV1>) -> Map<u128, GraphNode<AlchemistGraphDomain>>
    decreases nodes.len(),
{
    if nodes.len() == 0 {
        Map::empty()
    } else {
        nodes_of(nodes.drop_last()).insert(
            nodes.last().id.key(),
            GraphNode { id: nodes.last().id, data: nodes.last().data },
        )
    }
}

/// The node presentations that inserting `nodes` in order adds.
pub open spec fn presentations_of(nodes: Seq<FormulaNodeV1>) -> Map<u128, NodePresentation>
    decreases nodes.len(),
{
    if nodes.len() == 0 {
        Map::empty()
    } else {
        match nodes.last().presentation {
            Some(p) => presentations_of(nodes.drop_last()).insert(nodes.last().id.key(), p),
            None => presentations_of(nodes.drop_last()),
        }
    }
}

/// Comments, groups and bookmarks are kept under the keys of their
/// identities, and a group holds only nodes of the graph.
pub open spec fn presentation_keyed(s: GraphState<AlchemistGraphDomain>) -> bool {
    &&& forall|k: u128| #[trigger] s.comments.contains_key(k) ==> s.comments[k].id.0 == k
    &&& forall|k: u128|
        #[trigger] s.groups.contains_key(k) ==> {
            &&& s.groups[k].id.0 == k
            &&& forall|n: u128| #[trigger] s.groups[k].nodes@.contains(n) ==> s.nodes.contains_key(n)
        }
    &&& forall|k: u128| #[trigger] s.bookmarks.contains_key(k) ==> s.bookmarks[k].id.0 == k
}

/// `t` holds the graph `s` at revision zero: the same node identities with
/// nodes of the same type, ports and configuration, and the same edges,
/// presentation, comments, groups and bookmarks.
pub open spec fn rebuilt_as(t: GraphState<AlchemistGraphDomain>, s: GraphState<AlchemistGraphDomain>) -> bool {
    &&& t.revision == Revision(0)
    &&& t.nodes.dom() == s.nodes.dom()
    &&& forall|k: u128|
        #[trigger] t.nodes.contains_key(k) ==> t.nodes[k].id == s.nodes[k].id && same_node(
            t.nodes[k].data,
            s.nodes[k].data,
        )
    &&& t.edges == s.edges
    &&& t.node_presentation == s.node_presentation
    &&& t.comments == s.comments
    &&& t.groups == s.groups
    &&& t.bookmarks == s.bookmarks
}

proof fn lemma_to_set_last(q: Seq<u128>)
    requires
        q.len() > 0,
    ensures
        q.to_set() == q.drop_last().to_set().insert(q.last()),
{
    assert forall|x: u128| #[trigger] q.to_set().contains(x) <==> q.drop_last().to_set().insert(q.last()).contains(x) by {
        if q.to_set().contains(x) {
            assert(q.contains(x));
            let i = choose|i: int| 0 <= i < q.len() && q[i] == x;
            if i < q.len() - 1 {
                assert(q.drop_last()[i] == x);
                assert(q.drop_last().contains(x));
            }
        }
        if q.drop_last().to_set().contains(x) {
            assert(q.drop_last().contains(x));
            let i = choose|i: int| 0 <= i < q.drop_last().len() && q.drop_last()[i] == x;
            assert(q[i] == x);
            assert(q.contains(x));
        }
        if x == q.last() {
            assert(q[q.len() - 1] == x);
            assert(q.contains(x));
        }
    }
    assert(q.to_set() =~= q.drop_last().to_set().insert(q.last()));
}

proof fn lemma_fill<V>(m: Map<u128, V>, q: Seq<u128>)
    requires
        forall|i: int| 0 <= i < q.len() ==> m.contains_key(#[trigger] q[i]),
    ensures
        fill(m, q) == m.restrict(q.to_set()),
    decreases q.len(),
{
    if q.len() == 0 {
        assert(q.to_set() =~= Set::<u128>::empty());
        assert(fill(m, q) =~= m.restrict(q.to_set()));
    } else {
        assert forall|i: int| 0 <= i < q.drop_last().len() implies m.contains_key(#[trigger] q.drop_last()[i]) by {
            assert(q.drop_last()[i] == q[i]);
        }
        lemma_fill(m, q.drop_last());
        lemma_to_set_last(q);
        assert(m.contains_key(q[q.len() - 1]));
        assert(fill(m, q) =~= m.restrict(q.to_set()));
    }
}

proof fn lemma_values_at_last<V>(m: Map<u128, V>, q: Seq<u128>)
    requires
        q.len() > 0,
    ensures
        values_at(m, q).drop_last() == values_at(m, q.drop_last()),
        values_at(m, q).last() == m[q.last()],
        values_at(m, q).len() == q.len(),
{
    assert(values_at(m, q).drop_last() =~= values_at(m, q.drop_last()));
}

/// Connections of `edges`, in order.
pub open spec fn connects(edges: Seq<GraphEdge<AlchemistGraphDomain>>) -> Seq<GraphOperation<AlchemistGraphDomain>> {
    edges.map_values(|e: GraphEdge<AlchemistGraphDomain>| GraphOperation::Connect { edge: e })
}

proof fn lemma_connects(t: GraphState<AlchemistGraphDomain>, m: Map<u128, GraphEdge<AlchemistGraphDomain>>, q: Seq<u128>)
    requires
        q.no_duplicates(),
        t.edges == Map::<u128, GraphEdge<AlchemistGraphDomain>>::empty(),
        forall|i: int|
            0 <= i < q.len() ==> {
                &&& m.contains_key(#[trigger] q[i])
                &&& m[q[i]].id.key() == q[i]
                &&& t.nodes.contains_key(m[q[i]].from.node.key())
                &&& t.nodes.contains_key(m[q[i]].to.node.key())
            },
    ensures
        transaction_effect(t, connects(values_at(m, q))) matches Some(effect) && effect.0 == (GraphState {
            edges: fill(m, q),
            ..t
        }),
    decreases q.len(),
{
    if q.len() == 0 {
        assert(connects(values_at(m, q)) =~= Seq::<GraphOperation<AlchemistGraphDomain>>::empty());
        assert(fill(m, q) =~= t.edges);
        assert((GraphState { edges: fill(m, q), ..t }) == t);
    } else {
        let p = q.drop_last();
        assert forall|i: int, j: int| 0 <= i < p.len() && 0 <= j < p.len() && i != j implies p[i] != p[j] by {
            assert(p[i] == q[i] && p[j] == q[j]);
        }
        assert forall|i: int| 0 <= i < p.len() implies {
            &&& m.contains_key(#[trigger] p[i])
            &&& m[p[i]].id.key() == p[i]
            &&& t.nodes.contains_key(m[p[i]].from.node.key())
            &&& t.nodes.contains_key(m[p[i]].to.node.key())
        } by {
            assert(p[i] == q[i]);
        }
        lemma_connects(t, m, p);
        lemma_values_at_last(m, q);
        let ops = connects(values_at(m, q));
        assert(ops.drop_last() =~= connects(values_at(m, p)));
        let k = q.last();
        assert(q[q.len() - 1] == k);
        assert forall|i: int| 0 <= i < p.len() implies m.contains_key(#[trigger] p[i]) by {
            assert(p[i] == q[i]);
        }
        lemma_fill(m, p);
        if p.to_set().contains(k) {
            assert(p.contains(k));
            let i = choose|i: int| 0 <= i < p.len() && p[i] == k;
            assert(q[i] == q[q.len() - 1]);
        }
        assert(ops.last() == GraphOperation::<AlchemistGraphDomain>::Connect { edge: m[k] });
        assert(fill(m, q) == fill(m, p).insert(k, m[k]));
    }
}

/// Upserts of `comments`, in order.
proof fn lemma_comments(t: GraphState<AlchemistGraphDomain>, m: Map<u128, GraphComment>, q: Seq<u128>)
    requires
        t.comments == Map::<u128, GraphComment>::empty(),
        forall|i: int| 0 <= i < q.len() ==> m.contains_key(#[trigger] q[i]) && m[q[i]].id.0 == q[i],
    ensures
        transaction_effect(t, comment_upserts(values_at(m, q))) matches Some(effect) && effect.0 == (GraphState {
            comments: fill(m, q),
            ..t
        }),
    decreases q.len(),
{
    if q.len() == 0 {
        assert(comment_upserts(values_at(m, q)) =~= Seq::<GraphOperation<AlchemistGraphDomain>>::empty());
        assert(fill(m, q) =~= t.comments);
        assert((GraphState { comments: fill(m, q), ..t }) == t);
    } else {
        let p = q.drop_last();
        assert forall|i: int| 0 <= i < p.len() implies m.contains_key(#[trigger] p[i]) && m[p[i]].id.0 == p[i] by {
            assert(p[i] == q[i]);
        }
        lemma_comments(t, m, p);
        lemma_values_at_last(m, q);
        let ops = comment_upserts(values_at(m, q));
        assert(ops.drop_last() =~= comment_upserts(values_at(m, p)));
        assert(q[q.len() - 1] == q.last());
        assert(ops.last() == GraphOperation::<AlchemistGraphDomain>::UpsertComment(m[q.last()]));
    }
}

proof fn lemma_groups(t: GraphState<AlchemistGraphDomain>, m: Map<u128, GraphGroup>, q: Seq<u128>)
    requires
        t.groups == Map::<u128, GraphGroup>::empty(),
        forall|i: int|
            0 <= i < q.len() ==> {
                &&& m.contains_key(#[trigger] q[i])
                &&& m[q[i]].id.0 == q[i]
                &&& forall|n: u128| #[trigger] m[q[i]].nodes@.contains(n) ==> t.nodes.contains_key(n)
            },
    ensures
        transaction_effect(t, group_upserts(values_at(m, q))) matches Some(effect) && effect.0 == (GraphState {
            groups: fill(m, q),
            ..t
        }),
    decreases q.len(),
{
    if q.len() == 0 {
        assert(group_upserts(values_at(m, q)) =~= Seq::<GraphOperation<AlchemistGraphDomain>>::empty());
        assert(fill(m, q) =~= t.groups);
        assert((GraphState { groups: fill(m, q), ..t }) == t);
    } else {
        let p = q.drop_last();
        assert forall|i: int| 0 <= i < p.len() implies {
            &&& m.contains_key(#[trigger] p[i])
            &&& m[p[i]].id.0 == p[i]
            &&& forall|n: u128| #[trigger] m[p[i]].nodes@.contains(n) ==> t.nodes.contains_key(n)
        } by {
            assert(p[i] == q[i]);
        }
        lemma_groups(t, m, p);
        lemma_values_at_last(m, q);
        let ops = group_upserts(values_at(m, q));
        assert(ops.drop_last() =~= group_upserts(values_at(m, p)));
        assert(q[q.len() - 1] == q.last());
        assert(ops.last() == GraphOperation::<AlchemistGraphDomain>::UpsertGroup(m[q.last()]));
    }
}

proof fn lemma_bookmarks(t: GraphState<AlchemistGraphDomain>, m: Map<u128, ViewportBookmark>, q: Seq<u128>)
    requires
        t.bookmarks == Map::<u128, ViewportBookmark>::empty(),
        forall|i: int| 0 <= i < q.len() ==> m.contains_key(#[trigger] q[i]) && m[q[i]].id.0 == q[i],
    ensures
        transaction_effect(t, bookmark_upserts(values_at(m, q))) matches Some(effect) && effect.0 == (GraphState {
            bookmarks: fill(m, q),
            ..t
        }),
    decreases q.len(),
{
    if q.len() == 0 {
        assert(bookmark_upserts(values_at(m, q)) =~= Seq::<GraphOperation<AlchemistGraphDomain>>::empty());
        assert(fill(m, q) =~= t.bookmarks);
        assert((GraphState { bookmarks: fill(m, q), ..t }) == t);
    } else {
        let p = q.drop_last();
        assert forall|i: int| 0 <= i < p.len() implies m.contains_key(#[trigger] p[i]) && m[p[i]].id.0 == p[i] by {
            assert(p[i] == q[i]);
        }
        lemma_bookmarks(t, m, p);
        lemma_values_at_last(m, q);
        let ops = bookmark_upserts(values_at(m, q));
        assert(ops.drop_last() =~= bookmark_upserts(values_at(m, p)));
        assert(q[q.len() - 1] == q.last());
        assert(ops.last() == GraphOperation::<AlchemistGraphDomain>::UpsertBookmark(m[q.last()]));
    }
}

/// Node keys of `nodes`, in order.
pub open spec fn node_keys_of(nodes: Seq<FormulaNodeV1>) -> Seq<u128> {
    nodes.map_values(|n: FormulaNodeV1| n.id.key())
}

proof fn lemma_nodes_of(nodes: Seq<FormulaNodeV1>)
    requires
        node_keys_of(nodes).no_duplicates(),
    ensures
        nodes_of(nodes).dom() == node_keys_of(nodes).to_set(),
        forall|i: int|
            0 <= i < nodes.len() ==> nodes_of(nodes)[#[trigger] node_keys_of(nodes)[i]] == (GraphNode::<AlchemistGraphDomain> {
                id: nodes[i].id,
                data: nodes[i].data,
            }),
        forall|k: u128| #[trigger] presentations_of(nodes).contains_key(k) ==> nodes_of(nodes).contains_key(k),
        forall|i: int|
            0 <= i < nodes.len() ==> presentations_of(nodes).get(#[trigger] node_keys_of(nodes)[i])
                == nodes[i].presentation,
    decreases nodes.len(),
{
    let keys = node_keys_of(nodes);
    if nodes.len() == 0 {
        assert(keys.to_set() =~= Set::<u128>::empty());
        assert(nodes_of(nodes).dom() =~= keys.to_set());
    } else {
        let rest = nodes.drop_last();
        assert(node_keys_of(rest) =~= keys.drop_last());
        assert forall|i: int, j: int|
            0 <= i < keys.drop_last().len() && 0 <= j < keys.drop_last().len() && i != j implies keys.drop_last()[i]
            != keys.drop_last()[j] by {
            assert(keys.drop_last()[i] == keys[i]);
            assert(keys.drop_last()[j] == keys[j]);
        }
        lemma_nodes_of(rest);
        lemma_to_set_last(keys);
        assert(keys.last() == nodes.last().id.key());
        assert(nodes_of(nodes).dom() =~= keys.to_set());
        assert forall|i: int| 0 <= i < nodes.len() implies nodes_of(nodes)[#[trigger] keys[i]] == (GraphNode::<AlchemistGraphDomain> {
            id: nodes[i].id,
            data: nodes[i].data,
        }) by {
            if i < nodes.len() - 1 {
                assert(keys[i] != keys[nodes.len() - 1]);
                assert(node_keys_of(rest)[i] == keys[i]);
            }
        }
        assert forall|i: int| 0 <= i < nodes.len() implies presentations_of(nodes).get(#[trigger] keys[i])
            == nodes[i].presentation by {
            if i < nodes.len() - 1 {
                assert(keys[i] != keys[nodes.len() - 1]);
                assert(node_keys_of(rest)[i] == keys[i]);
            }
        }
    }
}

proof fn lemma_inserts(t: GraphState<AlchemistGraphDomain>, nodes: Seq<FormulaNodeV1>)
    requires
        node_keys_of(nodes).no_duplicates(),
        t.nodes == Map::<u128, GraphNode<AlchemistGraphDomain>>::empty(),
        t.node_presentation == Map::<u128, NodePresentation>::empty(),
    ensures
        transaction_effect(t, insert_operations(nodes)) matches Some(effect) && effect.0 == (GraphState {
            nodes: nodes_of(nodes),
            node_presentation: presentations_of(nodes),
            ..t
        }),
    decreases nodes.len(),
{
    if nodes.len() == 0 {
        assert(insert_operations(nodes) =~= Seq::<GraphOperation<AlchemistGraphDomain>>::empty());
        assert((GraphState { nodes: nodes_of(nodes), node_presentation: presentations_of(nodes), ..t }) == t);
    } else {
        let rest = nodes.drop_last();
        let keys = node_keys_of(nodes);
        assert(node_keys_of(rest) =~= keys.drop_last());
        assert forall|i: int, j: int|
            0 <= i < keys.drop_last().len() && 0 <= j < keys.drop_last().len() && i != j implies keys.drop_last()[i]
            != keys.drop_last()[j] by {
            assert(keys.drop_last()[i] == keys[i]);
            assert(keys.drop_last()[j] == keys[j]);
        }
        lemma_inserts(t, rest);
        lemma_nodes_of(rest);
        let ops = insert_operations(nodes);
        assert(ops.drop_last() =~= insert_operations(rest));
        let last = nodes.last();
        assert(keys[nodes.len() - 1] == last.id.key());
        if node_keys_of(rest).to_set().contains(last.id.key()) {
            assert(node_keys_of(rest).contains(last.id.key()));
            let i = choose|i: int| 0 <= i < node_keys_of(rest).len() && node_keys_of(rest)[i] == last.id.key();
            assert(keys[i] == keys[nodes.len() - 1]);
        }
        assert(ops.last() == GraphOperation::<AlchemistGraphDomain>::InsertNode {
            node: GraphNode { id: last.id, data: last.data },
            presentation: last.presentation,
        });
    }
}

/// The graph of a formula's file record is rebuilt by the record's operations:
/// replayed from the empty graph they take effect and give the formula's
/// nodes (each of the same type, ports and configuration), edges,
/// presentation, comments, groups and bookmarks. The graph's presentation
/// items must be kept under their own identities, and its groups must hold
/// only nodes of the graph; a group that still names a removed node is
/// refused when the record is rebuilt.
pub proof fn lemma_formula_file_rebuilds_its_graph(formula: AlchemistFormula, file: FormulaFileV1)
    requires
        formula.graph.wf(),
        records(file, formula),
        presentation_keyed(formula.graph@),
    ensures
        transaction_effect(GraphState::<AlchemistGraphDomain>::empty(), rebuild_operations(file)) matches Some(
            effect,
        ) && rebuilt_as(effect.0, formula.graph@),
{
    let s = formula.graph@;
    formula.graph.lemma_wf_content();
    formula.graph.lemma_finite();
    lemma_sorted_keys_exist(s.nodes.dom());
    lemma_sorted_keys_exist(s.edges.dom());
    lemma_sorted_keys_exist(s.comments.dom());
    lemma_sorted_keys_exist(s.groups.dom());
    lemma_sorted_keys_exist(s.bookmarks.dom());
    let qn = sorted_keys(s.nodes.dom());
    let qe = sorted_keys(s.edges.dom());
    let qc = sorted_keys(s.comments.dom());
    let qg = sorted_keys(s.groups.dom());
    let qb = sorted_keys(s.bookmarks.dom());
    assert forall|i: int| 0 <= i < qn.len() implies s.nodes.contains_key(#[trigger] qn[i]) by {
        assert(qn.contains(qn[i]));
    }
    assert forall|i: int| 0 <= i < qe.len() implies s.edges.contains_key(#[trigger] qe[i]) by {
        assert(qe.contains(qe[i]));
    }
    assert forall|i: int| 0 <= i < qc.len() implies s.comments.contains_key(#[trigger] qc[i]) by {
        assert(qc.contains(qc[i]));
    }
    assert forall|i: int| 0 <= i < qg.len() implies s.groups.contains_key(#[trigger] qg[i]) by {
        assert(qg.contains(qg[i]));
    }
    assert forall|i: int| 0 <= i < qb.len() implies s.bookmarks.contains_key(#[trigger] qb[i]) by {
        assert(qb.contains(qb[i]));
    }

    // Nodes, with their presentation.
    let nodes = file.nodes@;
    let ordered = ordered_nodes(s);
    assert(node_keys_of(nodes) =~= qn) by {
        assert forall|i: int| 0 <= i < nodes.len() implies node_keys_of(nodes)[i] == qn[i] by {
            assert(nodes[i].id == ordered[i].id);
            assert(ordered[i] == s.nodes[qn[i]]);
        }
    }
    let t0 = GraphState::<AlchemistGraphDomain>::empty();
    lemma_inserts(t0, nodes);
    lemma_nodes_of(nodes);
    let t1 = GraphState { nodes: nodes_of(nodes), node_presentation: presentations_of(nodes), ..t0 };
    assert(nodes_of(nodes).dom() == s.nodes.dom());
    assert(presentations_of(nodes) =~= s.node_presentation) by {
        assert forall|k: u128| #[trigger] presentations_of(nodes).contains_key(k) <==> s.node_presentation.contains_key(k) by {
            if s.node_presentation.contains_key(k) {
                assert(qn.to_set().contains(k));
                assert(qn.contains(k));
                let i = choose|i: int| 0 <= i < qn.len() && qn[i] == k;
                assert(nodes[i].presentation == s.node_presentation.get(ordered[i].id.key()));
                assert(node_keys_of(nodes)[i] == k);
            }
            if presentations_of(nodes).contains_key(k) {
                assert(nodes_of(nodes).contains_key(k));
                assert(qn.contains(k));
                let i = choose|i: int| 0 <= i < qn.len() && qn[i] == k;
                assert(node_keys_of(nodes)[i] == k);
                assert(nodes[i].presentation == s.node_presentation.get(ordered[i].id.key()));
            }
        }
        assert forall|k: u128| #[trigger] presentations_of(nodes).contains_key(k) implies presentations_of(nodes)[k]
            == s.node_presentation[k] by {
            assert(qn.contains(k));
            let i = choose|i: int| 0 <= i < qn.len() && qn[i] == k;
            assert(node_keys_of(nodes)[i] == k);
            assert(nodes[i].presentation == s.node_presentation.get(ordered[i].id.key()));
        }
    }

    // Edges.
    let edges_ops = connect_operations(file.edges@);
    assert(edges_ops =~= connects(values_at(s.edges, qe))) by {
        let oe = ordered_edges(s);
        assert forall|i: int| 0 <= i < edges_ops.len() implies edges_ops[i] == connects(values_at(s.edges, qe))[i] by {
            assert(oe[i] == s.edges[qe[i]]);
        }
    }
    assert forall|i: int| 0 <= i < qe.len() implies {
        &&& s.edges.contains_key(#[trigger] qe[i])
        &&& s.edges[qe[i]].id.key() == qe[i]
        &&& t1.nodes.contains_key(s.edges[qe[i]].from.node.key())
        &&& t1.nodes.contains_key(s.edges[qe[i]].to.node.key())
    } by {
    }
    lemma_connects(t1, s.edges, qe);
    lemma_fill(s.edges, qe);
    assert(s.edges.restrict(qe.to_set()) =~= s.edges);
    let t2 = GraphState { edges: fill(s.edges, qe), ..t1 };

    // Comments, groups and bookmarks.
    assert(in_key_order(file.presentation.comments@) =~= values_at(s.comments, qc));
    assert(in_key_order(file.presentation.groups@) =~= values_at(s.groups, qg));
    assert(in_key_order(file.presentation.bookmarks@) =~= values_at(s.bookmarks, qb));
    lemma_comments(t2, s.comments, qc);
    lemma_fill(s.comments, qc);
    assert(s.comments.restrict(qc.to_set()) =~= s.comments);
    let t3 = GraphState { comments: fill(s.comments, qc), ..t2 };
    lemma_groups(t3, s.groups, qg);
    lemma_fill(s.groups, qg);
    assert(s.groups.restrict(qg.to_set()) =~= s.groups);
    let t4 = GraphState { groups: fill(s.groups, qg), ..t3 };
    lemma_bookmarks(t4, s.bookmarks, qb);
    lemma_fill(s.bookmarks, qb);
    assert(s.bookmarks.restrict(qb.to_set()) =~= s.bookmarks);
    let t5 = GraphState { bookmarks: fill(s.bookmarks, qb), ..t4 };

    // The whole transaction.
    let inserts = insert_operations(nodes);
    let connections = connect_operations(file.edges@);
    let comments = comment_upserts(in_key_order(file.presentation.comments@));
    let groups = group_upserts(in_key_order(file.presentation.groups@));
    let bookmarks = bookmark_upserts(in_key_order(file.presentation.bookmarks@));
    lemma_effect_concat(t0, inserts, connections);
    lemma_effect_concat(t0, inserts + connections, comments);
    lemma_effect_concat(t0, inserts + connections + comments, groups);
    lemma_effect_concat(t0, inserts + connections + comments + groups, bookmarks);
    assert(rebuild_operations(file) == inserts + connections + comments + groups + bookmarks);
    assert forall|k: u128| #[trigger] t5.nodes.contains_key(k) implies t5.nodes[k].id == s.nodes[k].id && same_node(
        t5.nodes[k].data,
        s.nodes[k].data,
    ) by {
        assert(qn.contains(k));
        let i = choose|i: int| 0 <= i < qn.len() && qn[i] == k;
        assert(node_keys_of(nodes)[i] == k);
        assert(nodes[i].id == ordered[i].id);
        assert(ordered[i] == s.nodes[qn[i]]);
    }
}

} // verus!
