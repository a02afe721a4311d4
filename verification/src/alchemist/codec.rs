//! The versioned file form of formulas: a formula becomes a flat record of
//! its graph and contract, and a record is rebuilt into a formula by one
//! graph transaction. The record's text encoding happens at the
//! application's edge.

use std::collections::BTreeMap;
use vstd::prelude::*;
use vstd::std_specs::btree::increasing_seq;
use vstd::std_specs::iter::IteratorSpec;
use vstd::std_specs::cmp::OrdSpec;
use vstd::laws_cmp::obeys_cmp;
use crate::model::Revision;
use crate::graph::document::{GraphDocument, GraphEdge, GraphNode, GraphState};
use crate::graph::ids::{GraphId, GraphNodeId};
use crate::graph::keys::{lemma_increasing_keys, lemma_sorted_keys_of, sorted_keys};
use crate::graph::presentation::{GraphComment, GraphGroup, GraphPresentation, NodePresentation, ViewportBookmark};
use crate::graph::transaction::{GraphOperation, GraphTransaction, GraphTransactionError, transaction_effect};
use crate::values::duplicate_all;
use super::{AlchemistGraphData, AlchemistGraphDomain, AlchemistNode, FormulaEdgeV1, FormulaId, FormulaSchema, same_node};
use super::compiler::ordered_nodes;
use super::formula::{
    AlchemistFormula, FormulaDefaults, FormulaMetadata, FormulaProperty, FormulaSurface, ManagedRegionDefinition,
};

verus! {

broadcast use {vstd::std_specs::btree::group_btree_axioms, vstd::laws_cmp::group_laws_cmp};

/// The file version this library writes and reads.
pub const FORMULA_FILE_VERSION: u32 = 1;

/// One node of a formula file, with its presentation.
#[derive(Clone, Debug, PartialEq, Eq)]
pub struct FormulaNodeV1 {
    pub id: GraphNodeId,
    pub data: AlchemistNode,
    pub presentation: Option<NodePresentation>,
}

/// A formula as a flat record: its identity, schema, graph content,
/// presentation and contract.
#[derive(Clone, Debug, PartialEq, Eq)]
pub struct FormulaFileV1 {
    pub file_version: u32,
    pub id: FormulaId,
    pub schema: FormulaSchema,
    pub graph_id: GraphId,
    pub graph: AlchemistGraphData,
    pub nodes: Vec<FormulaNodeV1>,
    pub edges: Vec<FormulaEdgeV1>,
    pub presentation: GraphPresentation,
    pub properties: Vec<FormulaProperty>,
    pub surface: FormulaSurface,
    pub managed_regions: Vec<ManagedRegionDefinition>,
    pub metadata: FormulaMetadata,
    pub defaults: FormulaDefaults,
}

#[derive(Clone, Debug)]
pub enum FormulaCodecError {
    UnsupportedVersion(u32),
    /// The text is not a formula record; the parser's message.
    Json(String),
    /// The record's graph was refused.
    Graph(GraphTransactionError),
}

/// The edges of `s` in increasing identity order.
pub open spec fn ordered_edges(s: GraphState<AlchemistGraphDomain>) -> Seq<GraphEdge<AlchemistGraphDomain>> {
    sorted_keys(s.edges.dom()).map_values(|k: u128| s.edges[k])
}

/// `file` records `formula`: the same identity, schema, graph identity and
/// data, its nodes in increasing identity order with their presentations,
/// its edges in increasing identity order, its presentation and contract.
pub open spec fn records(file: FormulaFileV1, formula: AlchemistFormula) -> bool {
    let s = formula.graph@;
    let nodes = ordered_nodes(s);
    let edges = ordered_edges(s);
    &&& file.file_version == FORMULA_FILE_VERSION
    &&& file.id == formula.id
    &&& file.schema == formula.schema
    &&& file.graph_id == formula.graph.spec_id()
    &&& file.graph == formula.graph.spec_graph_data()
    &&& file.nodes@.len() == nodes.len()
    &&& forall|i: int|
        0 <= i < nodes.len() ==> {
            &&& (#[trigger] file.nodes@[i]).id == nodes[i].id
            &&& same_node(file.nodes@[i].data, nodes[i].data)
            &&& file.nodes@[i].presentation == s.node_presentation.get(nodes[i].id.key())
        }
    &&& file.edges@.len() == edges.len()
    &&& forall|i: int|
        0 <= i < edges.len() ==> #[trigger] file.edges@[i] == (FormulaEdgeV1 {
            id: edges[i].id,
            from: edges[i].from,
            to: edges[i].to,
            policy: edges[i].data,
        })
    &&& file.presentation.nodes@ == s.node_presentation
    &&& file.presentation.comments@ == s.comments
    &&& file.presentation.groups@ == s.groups
    &&& file.presentation.bookmarks@ == s.bookmarks
    &&& file.properties@ == formula.properties@
    &&& file.surface.inputs@ == formula.surface.inputs@
    &&& file.surface.outputs@ == formula.surface.outputs@
    &&& file.managed_regions@ == formula.managed_regions@
    &&& file.metadata.name == formula.metadata.name
    &&& file.metadata.description == formula.metadata.description
    &&& file.metadata.tags@ == formula.metadata.tags@
    &&& file.defaults.properties@ == formula.defaults.properties@
}

/// The values of `map` in increasing key order.
fn values_in_order<V>(map: &BTreeMap<u128, V>) -> (values: Vec<&V>)
    ensures
        values@.len() == sorted_keys(map@.dom()).len(),
        forall|i: int| 0 <= i < values@.len() ==> *(#[trigger] values@[i]) == map@[sorted_keys(map@.dom())[i]],
{
    let mut values: Vec<&V> = Vec::new();
    for value in it: map.values()
        invariant
            values@.len() == it.index(),
            forall|i: int| 0 <= i < values@.len() ==> values@[i] == it.seq()[i],
    {
        values.push(value);
    }
    proof {
        let key_seq = choose|key_seq: Seq<u128>|
            {
                &&& increasing_seq(key_seq)
                &&& key_seq.to_set() == map@.dom()
                &&& key_seq.no_duplicates()
                &&& map.values().remaining() == key_seq.map(|i: int, k: u128| &map@[k])
            };
        lemma_increasing_keys(key_seq);
        lemma_sorted_keys_of(key_seq);
    }
    values
}

/// The values of `map` in increasing key order.
pub open spec fn in_key_order<V>(map: Map<u128, V>) -> Seq<V> {
    sorted_keys(map.dom()).map_values(|k: u128| map[k])
}

/// Node insertions for `nodes`, with their presentations.
pub open spec fn insert_operations(nodes: Seq<FormulaNodeV1>) -> Seq<GraphOperation<AlchemistGraphDomain>> {
    nodes.map_values(
        |n: FormulaNodeV1|
            GraphOperation::InsertNode { node: GraphNode { id: n.id, data: n.data }, presentation: n.presentation },
    )
}

/// Connections for `edges`.
pub open spec fn connect_operations(edges: Seq<FormulaEdgeV1>) -> Seq<GraphOperation<AlchemistGraphDomain>> {
    edges.map_values(
        |e: FormulaEdgeV1| GraphOperation::Connect { edge: GraphEdge { id: e.id, from: e.from, to: e.to, data: e.policy } },
    )
}

pub open spec fn comment_upserts(comments: Seq<GraphComment>) -> Seq<GraphOperation<AlchemistGraphDomain>> {
    comments.map_values(|c: GraphComment| GraphOperation::<AlchemistGraphDomain>::UpsertComment(c))
}

pub open spec fn group_upserts(groups: Seq<GraphGroup>) -> Seq<GraphOperation<AlchemistGraphDomain>> {
    groups.map_values(|g: GraphGroup| GraphOperation::<AlchemistGraphDomain>::UpsertGroup(g))
}

pub open spec fn bookmark_upserts(bookmarks: Seq<ViewportBookmark>) -> Seq<GraphOperation<AlchemistGraphDomain>> {
    bookmarks.map_values(|b: ViewportBookmark| GraphOperation::<AlchemistGraphDomain>::UpsertBookmark(b))
}

/// The operations that rebuild the graph of `file`: its nodes, its edges,
/// then its comments, groups and bookmarks in increasing identity order.
pub open spec fn rebuild_operations(file: FormulaFileV1) -> Seq<GraphOperation<AlchemistGraphDomain>> {
    insert_operations(file.nodes@) + connect_operations(file.edges@) + comment_upserts(
        in_key_order(file.presentation.comments@),
    ) + group_upserts(in_key_order(file.presentation.groups@)) + bookmark_upserts(
        in_key_order(file.presentation.bookmarks@),
    )
}

/// Whether none of `ops` connects two nodes.
pub open spec fn no_connections(ops: Seq<GraphOperation<AlchemistGraphDomain>>) -> bool {
    forall|i: int| 0 <= i < ops.len() ==> !(#[trigger] ops[i] is Connect)
}

proof fn lemma_no_connections_concat(a: Seq<GraphOperation<AlchemistGraphDomain>>, b: Seq<GraphOperation<AlchemistGraphDomain>>)
    requires
        no_connections(a),
        no_connections(b),
    ensures
        no_connections(a + b),
{
    assert forall|i: int| 0 <= i < (a + b).len() implies !(#[trigger] (a + b)[i] is Connect) by {
        if i < a.len() {
            assert((a + b)[i] == a[i]);
        } else {
            assert((a + b)[i] == b[i - a.len()]);
        }
    }
}

/// A record without edges rebuilds its graph without connecting nodes.
proof fn lemma_rebuild_connects_only_edges(file: FormulaFileV1)
    requires
        file.edges@.len() == 0,
    ensures
        no_connections(rebuild_operations(file)),
{
    let inserts = insert_operations(file.nodes@);
    let connections = connect_operations(file.edges@);
    let comments = comment_upserts(in_key_order(file.presentation.comments@));
    let groups = group_upserts(in_key_order(file.presentation.groups@));
    let bookmarks = bookmark_upserts(in_key_order(file.presentation.bookmarks@));
    assert(no_connections(inserts)) by {
        assert forall|i: int| 0 <= i < inserts.len() implies !(#[trigger] inserts[i] is Connect) by {
            assert(inserts[i] is InsertNode);
        }
    }
    assert(connections.len() == 0);
    assert(no_connections(comments)) by {
        assert forall|i: int| 0 <= i < comments.len() implies !(#[trigger] comments[i] is Connect) by {
            assert(comments[i] is UpsertComment);
        }
    }
    assert(no_connections(groups)) by {
        assert forall|i: int| 0 <= i < groups.len() implies !(#[trigger] groups[i] is Connect) by {
            assert(groups[i] is UpsertGroup);
        }
    }
    assert(no_connections(bookmarks)) by {
        assert forall|i: int| 0 <= i < bookmarks.len() implies !(#[trigger] bookmarks[i] is Connect) by {
            assert(bookmarks[i] is UpsertBookmark);
        }
    }
    lemma_no_connections_concat(inserts, connections);
    lemma_no_connections_concat(inserts + connections, comments);
    lemma_no_connections_concat(inserts + connections + comments, groups);
    lemma_no_connections_concat(inserts + connections + comments + groups, bookmarks);
}

/// The keys of `map` in increasing order.
fn keys_in_order<V>(map: &BTreeMap<u128, V>) -> (keys: Vec<u128>)
    ensures
        keys@ == sorted_keys(map@.dom()),
        keys@.no_duplicates(),
        keys@.to_set() == map@.dom(),
{
    let mut keys: Vec<u128> = Vec::new();
    for key in it: map.keys()
        invariant
            keys@.len() == it.index(),
            forall|i: int| 0 <= i < keys@.len() ==> keys@[i] == *it.seq()[i],
    {
        keys.push(*key);
    }
    proof {
        let r = map.keys().remaining();
        assert(keys@ =~= r.unref());
        assert(obeys_cmp::<u128>());
        assert(obeys_cmp::<&u128>());
        assert(increasing_seq(r));
        assert forall|i: int, j: int| 0 <= i < j < keys@.len() implies keys@[i] < keys@[j] by {
            assert((&r[i]).cmp_spec(&&r[j]) is Less);
        }
        assert(keys@.to_set() =~= map@.dom());
        lemma_sorted_keys_of(keys@);
    }
    keys
}

/// The values of `map`, taken out in increasing key order.
fn drain_in_order<V>(map: BTreeMap<u128, V>) -> (values: Vec<V>)
    ensures
        values@ == in_key_order(map@),
{
    let ghost initial = map@;
    let keys = keys_in_order(&map);
    let mut map = map;
    let mut values: Vec<V> = Vec::new();
    let mut i: usize = 0;
    while i < keys.len()
        invariant
            i <= keys@.len(),
            keys@ == sorted_keys(initial.dom()),
            keys@.no_duplicates(),
            keys@.to_set() == initial.dom(),
            forall|k: u128| #[trigger] map@.contains_key(k) <==> initial.contains_key(k) && !keys@.take(i as int).contains(k),
            forall|k: u128| #[trigger] map@.contains_key(k) ==> map@[k] == initial[k],
            values@ == in_key_order(initial).take(i as int),
        decreases keys@.len() - i,
    {
        let key = keys[i];
        assert(keys@.contains(key));
        assert(!keys@.take(i as int).contains(key));
        match map.remove(&key) {
            Some(value) => {
                values.push(value);
            },
            None => {
                assert(false);
            },
        }
        assert(values@ =~= in_key_order(initial).take(i + 1));
        assert forall|k: u128| #[trigger] map@.contains_key(k) <==> initial.contains_key(k) && !keys@.take(i + 1).contains(k) by {
            let before = keys@.take(i as int);
            let after = keys@.take(i + 1);
            assert(after =~= before.push(key));
            if k == key {
                assert(after[i as int] == key);
            }
            if before.contains(k) {
                let j = choose|j: int| 0 <= j < before.len() && #[trigger] before[j] == k;
                assert(after[j] == k);
            }
            if after.contains(k) && k != key {
                let j = choose|j: int| 0 <= j < after.len() && #[trigger] after[j] == k;
                assert(j < i);
                assert(before[j] == k);
            }
        }
        i = i + 1;
    }
    assert(in_key_order(initial).take(keys@.len() as int) =~= in_key_order(initial));
    values
}

impl FormulaFileV1 {
    /// The record of `formula`.
    pub fn from_formula(formula: &AlchemistFormula) -> (file: Self)
        requires
            formula.graph.wf(),
        ensures
            records(file, *formula),
    {
        let ghost s = formula.graph@;
        let presentation = formula.graph.presentation();
        let graph_nodes = formula.graph.nodes();
        let ghost ordered = ordered_nodes(s);
        let mut nodes: Vec<FormulaNodeV1> = Vec::new();
        let mut i: usize = 0;
        while i < graph_nodes.len()
            invariant
                i <= graph_nodes@.len(),
                graph_nodes@.len() == ordered.len(),
                ordered == ordered_nodes(s),
                s == formula.graph@,
                presentation.nodes@ == s.node_presentation,
                forall|j: int| 0 <= j < graph_nodes@.len() ==> *(#[trigger] graph_nodes@[j]) == ordered[j],
                nodes@.len() == i,
                forall|j: int|
                    0 <= j < i ==> {
                        &&& (#[trigger] nodes@[j]).id == ordered[j].id
                        &&& same_node(nodes@[j].data, ordered[j].data)
                        &&& nodes@[j].presentation == s.node_presentation.get(ordered[j].id.key())
                    },
            decreases graph_nodes@.len() - i,
        {
            let node = graph_nodes[i];
            assert(*node == ordered[i as int]);
            let shown = match presentation.nodes.get(&node.id.0.0) {
                Some(shown) => Some(*shown),
                None => None,
            };
            nodes.push(FormulaNodeV1 { id: node.id, data: node.data.duplicate(), presentation: shown });
            i = i + 1;
        }
        let graph_edges = formula.graph.edges();
        let ghost ordered_edge_list = ordered_edges(s);
        let mut edges: Vec<FormulaEdgeV1> = Vec::new();
        let mut k: usize = 0;
        while k < graph_edges.len()
            invariant
                k <= graph_edges@.len(),
                graph_edges@.len() == ordered_edge_list.len(),
                forall|j: int| 0 <= j < graph_edges@.len() ==> *(#[trigger] graph_edges@[j]) == ordered_edge_list[j],
                edges@.len() == k,
                forall|j: int|
                    0 <= j < k ==> #[trigger] edges@[j] == (FormulaEdgeV1 {
                        id: ordered_edge_list[j].id,
                        from: ordered_edge_list[j].from,
                        to: ordered_edge_list[j].to,
                        policy: ordered_edge_list[j].data,
                    }),
            decreases graph_edges@.len() - k,
        {
            let edge = graph_edges[k];
            assert(*edge == ordered_edge_list[k as int]);
            edges.push(FormulaEdgeV1 { id: edge.id, from: edge.from, to: edge.to, policy: edge.data });
            k = k + 1;
        }
        FormulaFileV1 {
            file_version: FORMULA_FILE_VERSION,
            id: formula.id,
            schema: formula.schema,
            graph_id: formula.graph.id(),
            graph: AlchemistGraphData { name: formula.graph.graph_data().name.clone() },
            nodes,
            edges,
            presentation: presentation.duplicate(),
            properties: duplicate_all(&formula.properties),
            surface: formula.surface.duplicate(),
            managed_regions: duplicate_all(&formula.managed_regions),
            metadata: formula.metadata.duplicate(),
            defaults: formula.defaults.duplicate(),
        }
    }

    /// The formula this record describes: refused when the file version is
    /// not this library's; otherwise its graph is rebuilt by one
    /// transaction of `rebuild_operations` (no transaction when there is
    /// nothing to rebuild), and refused when that transaction is.
    pub fn into_formula(self) -> (result: Result<AlchemistFormula, FormulaCodecError>)
        ensures
            self.file_version != FORMULA_FILE_VERSION ==> (result matches Err(FormulaCodecError::UnsupportedVersion(v))
                && v == self.file_version),
            self.file_version == FORMULA_FILE_VERSION ==> {
                let ops = rebuild_operations(self);
                &&& ops.len() == 0 ==> (result matches Ok(f) && f.graph@ == GraphState::<AlchemistGraphDomain>::empty())
                &&& transaction_effect(GraphState::<AlchemistGraphDomain>::empty(), ops) is None ==> result is Err
                &&& result matches Ok(f) ==> (ops.len() > 0 ==> (transaction_effect(
                    GraphState::<AlchemistGraphDomain>::empty(),
                    ops,
                ) matches Some(effect) && f.graph@ == effect.0.with_revision(Revision(1))))
                &&& result is Err ==> (result matches Err(FormulaCodecError::Graph(_)))
            },
            self.file_version == FORMULA_FILE_VERSION && self.edges@.len() == 0 && transaction_effect(
                GraphState::<AlchemistGraphDomain>::empty(),
                rebuild_operations(self),
            ) is Some ==> result is Ok,
            result matches Ok(f) ==> {
                &&& f.graph.wf()
                &&& f.id == self.id
                &&& f.schema == self.schema
                &&& f.graph.spec_id() == self.graph_id
                &&& f.graph.spec_graph_data() == self.graph
                &&& f.properties == self.properties
                &&& f.surface == self.surface
                &&& f.managed_regions == self.managed_regions
                &&& f.metadata == self.metadata
                &&& f.defaults == self.defaults
            },
    {
        if self.file_version != FORMULA_FILE_VERSION {
            return Err(FormulaCodecError::UnsupportedVersion(self.file_version));
        }
        let ghost file = self;
        let FormulaFileV1 {
            file_version: _,
            id,
            schema,
            graph_id,
            graph,
            nodes,
            edges,
            presentation,
            properties,
            surface,
            managed_regions,
            metadata,
            defaults,
        } = self;
        let mut document = GraphDocument::new(graph_id, AlchemistGraphDomain, graph);
        let mut transaction = GraphTransaction::new(Revision::zero());
        let ghost node_list = nodes@;
        for node in it: nodes.into_iter()
            invariant
                it.seq() == node_list,
                transaction.expected_revision == Revision(0),
                transaction.operations@ == insert_operations(node_list.take(it.index())),
        {
            transaction.push(
                GraphOperation::InsertNode { node: GraphNode { id: node.id, data: node.data }, presentation: node.presentation },
            );
            assert(insert_operations(node_list.take(it.index() + 1)) =~= insert_operations(
                node_list.take(it.index()),
            ).push(transaction.operations@.last()));
        }
        assert(node_list.take(node_list.len() as int) =~= node_list);
        let ghost inserted = transaction.operations@;
        let ghost edge_list = edges@;
        for edge in it: edges.into_iter()
            invariant
                it.seq() == edge_list,
                transaction.expected_revision == Revision(0),
                transaction.operations@ == inserted + connect_operations(edge_list.take(it.index())),
        {
            transaction.push(
                GraphOperation::Connect { edge: GraphEdge { id: edge.id, from: edge.from, to: edge.to, data: edge.policy } },
            );
            assert(connect_operations(edge_list.take(it.index() + 1)) =~= connect_operations(
                edge_list.take(it.index()),
            ).push(transaction.operations@.last()));
            assert(transaction.operations@ =~= inserted + connect_operations(edge_list.take(it.index() + 1)));
        }
        assert(edge_list.take(edge_list.len() as int) =~= edge_list);
        let ghost connected = transaction.operations@;
        let comments = drain_in_order(presentation.comments);
        let ghost comment_list = comments@;
        for comment in it: comments.into_iter()
            invariant
                it.seq() == comment_list,
                transaction.expected_revision == Revision(0),
                transaction.operations@ == connected + comment_upserts(comment_list.take(it.index())),
        {
            transaction.push(GraphOperation::UpsertComment(comment));
            assert(comment_upserts(comment_list.take(it.index() + 1)) =~= comment_upserts(
                comment_list.take(it.index()),
            ).push(transaction.operations@.last()));
            assert(transaction.operations@ =~= connected + comment_upserts(comment_list.take(it.index() + 1)));
        }
        assert(comment_list.take(comment_list.len() as int) =~= comment_list);
        let ghost commented = transaction.operations@;
        let groups = drain_in_order(presentation.groups);
        let ghost group_list = groups@;
        for group in it: groups.into_iter()
            invariant
                it.seq() == group_list,
                transaction.expected_revision == Revision(0),
                transaction.operations@ == commented + group_upserts(group_list.take(it.index())),
        {
            transaction.push(GraphOperation::UpsertGroup(group));
            assert(group_upserts(group_list.take(it.index() + 1)) =~= group_upserts(group_list.take(it.index())).push(
                transaction.operations@.last(),
            ));
            assert(transaction.operations@ =~= commented + group_upserts(group_list.take(it.index() + 1)));
        }
        assert(group_list.take(group_list.len() as int) =~= group_list);
        let ghost grouped = transaction.operations@;
        let bookmarks = drain_in_order(presentation.bookmarks);
        let ghost bookmark_list = bookmarks@;
        for bookmark in it: bookmarks.into_iter()
            invariant
                it.seq() == bookmark_list,
                transaction.expected_revision == Revision(0),
                transaction.operations@ == grouped + bookmark_upserts(bookmark_list.take(it.index())),
        {
            transaction.push(GraphOperation::UpsertBookmark(bookmark));
            assert(bookmark_upserts(bookmark_list.take(it.index() + 1)) =~= bookmark_upserts(
                bookmark_list.take(it.index()),
            ).push(transaction.operations@.last()));
            assert(transaction.operations@ =~= grouped + bookmark_upserts(bookmark_list.take(it.index() + 1)));
        }
        assert(bookmark_list.take(bookmark_list.len() as int) =~= bookmark_list);
        assert(transaction.operations@ =~= rebuild_operations(file));
        if transaction.operations.len() > 0 {
            proof {
                if file.edges@.len() == 0 {
                    lemma_rebuild_connects_only_edges(file);
                }
            }
            match document.apply(transaction) {
                Ok(_) => {},
                Err(error) => return Err(FormulaCodecError::Graph(error)),
            }
        }
        Ok(
            AlchemistFormula {
                id,
                schema,
                graph: document,
                properties,
                surface,
                managed_regions,
                metadata,
                defaults,
            },
        )
    }
}

} // verus!
