//! Graph documents: nodes, edges, their topology indexes and presentation.
//!
//! A document keeps, next to its node and edge maps, the set of outgoing and
//! incoming edges of every node. `wf` states that these indexes hold exactly
//! the edges that leave and enter each node, that every edge joins two
//! existing nodes and that presentation is only kept for existing nodes.

use std::collections::{BTreeMap, BTreeSet};
use vstd::prelude::*;
use crate::model::{EntityId, Revision};
use super::domain::{GraphDomain, PortDirection, PortRef, PortDescriptor};
use super::ids::{GraphEdgeId, GraphId, GraphNodeId, GraphPortId};
use super::presentation::{GraphComment, GraphGroup, GraphPresentation, NodePresentation, ViewportBookmark};
use super::keys::{sorted_keys, sorted_vec, strictly_increasing, union_into, lemma_sorted_keys_of, lemma_increasing_keys};
use vstd::std_specs::btree::increasing_seq;
use vstd::std_specs::iter::IteratorSpec;

verus! {

broadcast use {vstd::std_specs::btree::group_btree_axioms, vstd::laws_cmp::group_laws_cmp};

pub struct GraphNode<D: GraphDomain> {
    pub id: GraphNodeId,
    pub data: D::NodeData,
}

pub struct GraphEdge<D: GraphDomain> {
    pub id: GraphEdgeId,
    pub from: PortRef,
    pub to: PortRef,
    pub data: D::EdgeData,
}

/// What `remove_node_internal` takes out of a document.
pub struct RemovedNode<D: GraphDomain> {
    pub node: GraphNode<D>,
    pub presentation: Option<NodePresentation>,
    pub edges: Vec<GraphEdge<D>>,
}

/// Whether `ports` lists port `port` with `direction`.
pub open spec fn port_listed<P>(ports: Seq<PortDescriptor<P>>, port: GraphPortId, direction: PortDirection) -> bool {
    exists|i: int| 0 <= i < ports.len() && #[trigger] ports[i].id == port && ports[i].direction == direction
}

/// Node `reference.node` exists in `document`, and the domain may report for
/// it ports that include `reference.port` with `direction`.
pub open spec fn port_offered<D: GraphDomain>(
    document: &GraphDocument<D>,
    reference: PortRef,
    direction: PortDirection,
) -> bool {
    &&& document@.nodes.contains_key(reference.node.key())
    &&& exists|ports: Vec<PortDescriptor<D::PortData>>|
        #[trigger] call_ensures(
            D::node_ports,
            (&document.spec_domain(), &document@.nodes[reference.node.key()].data, document),
            ports,
        ) && port_listed(ports@, reference.port, direction)
}

/// Node `reference.node` is missing from `document`, or the domain may report
/// for it ports that lack `reference.port` with `direction`.
pub open spec fn port_refused<D: GraphDomain>(
    document: &GraphDocument<D>,
    reference: PortRef,
    direction: PortDirection,
) -> bool {
    ||| !document@.nodes.contains_key(reference.node.key())
    ||| exists|ports: Vec<PortDescriptor<D::PortData>>|
        #[trigger] call_ensures(
            D::node_ports,
            (&document.spec_domain(), &document@.nodes[reference.node.key()].data, document),
            ports,
        ) && !port_listed(ports@, reference.port, direction)
}

/// The abstract content of a document.
#[verifier::ext_equal]
pub struct GraphState<D: GraphDomain> {
    pub revision: Revision,
    pub nodes: Map<u128, GraphNode<D>>,
    pub edges: Map<u128, GraphEdge<D>>,
    pub node_presentation: Map<u128, NodePresentation>,
    pub comments: Map<u128, GraphComment>,
    pub groups: Map<u128, GraphGroup>,
    pub bookmarks: Map<u128, ViewportBookmark>,
}

/// Edges of `edges` that leave node `node`.
pub open spec fn outgoing_of<D: GraphDomain>(edges: Map<u128, GraphEdge<D>>, node: u128) -> Set<u128> {
    Set::new(|e: u128| edges.contains_key(e) && edges[e].from.node.key() == node)
}

/// Edges of `edges` that enter node `node`.
pub open spec fn incoming_of<D: GraphDomain>(edges: Map<u128, GraphEdge<D>>, node: u128) -> Set<u128> {
    Set::new(|e: u128| edges.contains_key(e) && edges[e].to.node.key() == node)
}

/// Edges of `edges` that leave or enter node `node`.
pub open spec fn incident_of<D: GraphDomain>(edges: Map<u128, GraphEdge<D>>, node: u128) -> Set<u128> {
    Set::new(
        |e: u128|
            edges.contains_key(e) && (edges[e].from.node.key() == node || edges[e].to.node.key() == node),
    )
}

/// Keys agree with identities, edges join existing nodes and presentation
/// is only kept for existing nodes.
pub open spec fn state_wf<D: GraphDomain>(s: GraphState<D>) -> bool {
    &&& forall|k: u128| #[trigger] s.nodes.contains_key(k) ==> s.nodes[k].id.key() == k
    &&& forall|k: u128|
        #[trigger] s.edges.contains_key(k) ==> {
            &&& s.edges[k].id.key() == k
            &&& s.nodes.contains_key(s.edges[k].from.node.key())
            &&& s.nodes.contains_key(s.edges[k].to.node.key())
        }
    &&& forall|k: u128| #[trigger] s.node_presentation.contains_key(k) ==> s.nodes.contains_key(k)
}

impl<D: GraphDomain> GraphState<D> {
    /// The empty document at revision zero.
    pub open spec fn empty() -> Self {
        GraphState {
            revision: Revision(0),
            nodes: Map::empty(),
            edges: Map::empty(),
            node_presentation: Map::empty(),
            comments: Map::empty(),
            groups: Map::empty(),
            bookmarks: Map::empty(),
        }
    }

    pub open spec fn with_revision(self, revision: Revision) -> Self {
        GraphState { revision, ..self }
    }

    /// Inserts `node`, and its presentation when one is given.
    pub open spec fn with_node(self, node: GraphNode<D>, presentation: Option<NodePresentation>) -> Self {
        GraphState {
            nodes: self.nodes.insert(node.id.key(), node),
            node_presentation: match presentation {
                Some(p) => self.node_presentation.insert(node.id.key(), p),
                None => self.node_presentation,
            },
            ..self
        }
    }

    /// Removes node `key`, every edge incident to it and its presentation.
    pub open spec fn without_node(self, key: u128) -> Self {
        GraphState {
            nodes: self.nodes.remove(key),
            edges: self.edges.remove_keys(incident_of(self.edges, key)),
            node_presentation: self.node_presentation.remove(key),
            ..self
        }
    }

    /// Replaces the data of node `key`.
    pub open spec fn with_node_data(self, key: u128, data: D::NodeData) -> Self {
        GraphState {
            nodes: self.nodes.insert(key, GraphNode { id: self.nodes[key].id, data }),
            ..self
        }
    }

    pub open spec fn with_edge(self, edge: GraphEdge<D>) -> Self {
        GraphState { edges: self.edges.insert(edge.id.key(), edge), ..self }
    }

    pub open spec fn without_edge(self, key: u128) -> Self {
        GraphState { edges: self.edges.remove(key), ..self }
    }

    pub open spec fn with_node_presentation(self, key: u128, presentation: Option<NodePresentation>) -> Self {
        GraphState {
            node_presentation: match presentation {
                Some(p) => self.node_presentation.insert(key, p),
                None => self.node_presentation.remove(key),
            },
            ..self
        }
    }

    pub open spec fn with_comment(self, key: u128, comment: Option<GraphComment>) -> Self {
        GraphState {
            comments: match comment {
                Some(c) => self.comments.insert(key, c),
                None => self.comments.remove(key),
            },
            ..self
        }
    }

    pub open spec fn with_group(self, key: u128, group: Option<GraphGroup>) -> Self {
        GraphState {
            groups: match group {
                Some(g) => self.groups.insert(key, g),
                None => self.groups.remove(key),
            },
            ..self
        }
    }

    pub open spec fn with_bookmark(self, key: u128, bookmark: Option<ViewportBookmark>) -> Self {
        GraphState {
            bookmarks: match bookmark {
                Some(b) => self.bookmarks.insert(key, b),
                None => self.bookmarks.remove(key),
            },
            ..self
        }
    }
}

/// An authored graph of one domain.
pub struct GraphDocument<D: GraphDomain> {
    id: GraphId,
    revision: Revision,
    domain: D,
    graph_data: D::GraphData,
    pub(crate) nodes: BTreeMap<u128, GraphNode<D>>,
    pub(crate) edges: BTreeMap<u128, GraphEdge<D>>,
    pub(crate) outgoing: BTreeMap<u128, BTreeSet<u128>>,
    pub(crate) incoming: BTreeMap<u128, BTreeSet<u128>>,
    pub(crate) presentation: GraphPresentation,
}

impl<D: GraphDomain> View for GraphDocument<D> {
    type V = GraphState<D>;

    closed spec fn view(&self) -> GraphState<D> {
        GraphState {
            revision: self.revision,
            nodes: self.nodes@,
            edges: self.edges@,
            node_presentation: self.presentation.nodes@,
            comments: self.presentation.comments@,
            groups: self.presentation.groups@,
            bookmarks: self.presentation.bookmarks@,
        }
    }
}

/// Sets the edge `edge` into index entry `key`, creating the entry if needed.
fn index_insert(index: &mut BTreeMap<u128, BTreeSet<u128>>, key: u128, edge: u128)
    ensures
        final(index)@.dom() == old(index)@.dom().insert(key),
        forall|k: u128| k != key && old(index)@.contains_key(k) ==> #[trigger] final(index)@[k] == old(index)@[k],
        old(index)@.contains_key(key) ==> final(index)@[key]@ == old(index)@[key]@.insert(edge),
        !old(index)@.contains_key(key) ==> final(index)@[key]@ == Set::<u128>::empty().insert(edge),
{
    let mut set = match index.remove(&key) {
        Some(set) => set,
        None => BTreeSet::new(),
    };
    set.insert(edge);
    index.insert(key, set);
}

/// Removes the edge `edge` from index entry `key` when the entry exists.
fn index_remove(index: &mut BTreeMap<u128, BTreeSet<u128>>, key: u128, edge: u128)
    ensures
        final(index)@.dom() == old(index)@.dom(),
        forall|k: u128| k != key && old(index)@.contains_key(k) ==> #[trigger] final(index)@[k] == old(index)@[k],
        old(index)@.contains_key(key) ==> final(index)@[key]@ == old(index)@[key]@.remove(edge),
{
    if let Some(mut set) = index.remove(&key) {
        set.remove(&edge);
        index.insert(key, set);
    } else {
        assert(index@ =~= old(index)@);
    }
}

impl<D: GraphDomain> GraphDocument<D> {
    /// The topology indexes agree with the edges and the content is well formed.
    pub closed spec fn wf(&self) -> bool {
        &&& state_wf(self@)
        &&& self.outgoing@.dom() == self.nodes@.dom()
        &&& self.incoming@.dom() == self.nodes@.dom()
        &&& forall|n: u128| #[trigger]
            self.outgoing@.contains_key(n) ==> self.outgoing@[n]@ == outgoing_of(self.edges@, n)
        &&& forall|n: u128| #[trigger]
            self.incoming@.contains_key(n) ==> self.incoming@[n]@ == incoming_of(self.edges@, n)
    }

    /// A well-formed document has well-formed content.
    pub proof fn lemma_wf_content(&self)
        requires
            self.wf(),
        ensures
            state_wf(self@),
    {
    }

    /// A document has finitely many nodes, edges and presentation items.
    pub proof fn lemma_finite(&self)
        ensures
            self@.nodes.dom().finite(),
            self@.edges.dom().finite(),
            self@.node_presentation.dom().finite(),
            self@.comments.dom().finite(),
            self@.groups.dom().finite(),
            self@.bookmarks.dom().finite(),
    {
        assert(self.nodes@.dom().finite());
        assert(self.edges@.dom().finite());
        assert(self.presentation.nodes@.dom().finite());
        assert(self.presentation.comments@.dom().finite());
        assert(self.presentation.groups@.dom().finite());
        assert(self.presentation.bookmarks@.dom().finite());
    }

    pub closed spec fn spec_id(&self) -> GraphId {
        self.id
    }

    pub closed spec fn spec_domain(&self) -> D {
        self.domain
    }

    pub closed spec fn spec_graph_data(&self) -> D::GraphData {
        self.graph_data
    }

    /// Identity, domain and graph data never change after creation.
    pub open spec fn same_frame(&self, other: &Self) -> bool {
        &&& self.spec_id() == other.spec_id()
        &&& self.spec_domain() == other.spec_domain()
        &&& self.spec_graph_data() == other.spec_graph_data()
    }

    /// An empty document at revision zero.
    pub fn new(id: GraphId, domain: D, graph_data: D::GraphData) -> (document: Self)
        ensures
            document.wf(),
            document@ == GraphState::<D>::empty(),
            document.spec_id() == id,
            document.spec_domain() == domain,
            document.spec_graph_data() == graph_data,
    {
        let document = GraphDocument {
            id,
            revision: Revision::zero(),
            domain,
            graph_data,
            nodes: BTreeMap::new(),
            edges: BTreeMap::new(),
            outgoing: BTreeMap::new(),
            incoming: BTreeMap::new(),
            presentation: GraphPresentation::new(),
        };
        assert(document@ =~= GraphState::<D>::empty());
        document
    }

    pub fn id(&self) -> (id: GraphId)
        ensures
            id == self.spec_id(),
    {
        self.id
    }

    pub fn revision(&self) -> (revision: Revision)
        ensures
            revision == self@.revision,
    {
        self.revision
    }

    pub fn domain(&self) -> (domain: &D)
        ensures
            *domain == self.spec_domain(),
    {
        &self.domain
    }

    pub fn graph_data(&self) -> (data: &D::GraphData)
        ensures
            *data == self.spec_graph_data(),
    {
        &self.graph_data
    }

    pub fn node(&self, id: GraphNodeId) -> (node: Option<&GraphNode<D>>)
        ensures
            match node {
                Some(n) => self@.nodes.contains_key(id.key()) && *n == self@.nodes[id.key()],
                None => !self@.nodes.contains_key(id.key()),
            },
    {
        self.nodes.get(&id.0.0)
    }

    pub fn edge(&self, id: GraphEdgeId) -> (edge: Option<&GraphEdge<D>>)
        ensures
            match edge {
                Some(e) => self@.edges.contains_key(id.key()) && *e == self@.edges[id.key()],
                None => !self@.edges.contains_key(id.key()),
            },
    {
        self.edges.get(&id.0.0)
    }

    pub fn presentation(&self) -> (presentation: &GraphPresentation)
        ensures
            presentation.nodes@ == self@.node_presentation,
            presentation.comments@ == self@.comments,
            presentation.groups@ == self@.groups,
            presentation.bookmarks@ == self@.bookmarks,
    {
        &self.presentation
    }

    pub(crate) fn set_revision(&mut self, revision: Revision)
        requires
            old(self).wf(),
        ensures
            final(self).wf(),
            final(self).same_frame(&*old(self)),
            final(self)@ == old(self)@.with_revision(revision),
    {
        self.revision = revision;
        assert(self@ =~= old(self)@.with_revision(revision));
    }

    /// Inserts a node that is not yet in the document.
    pub(crate) fn insert_node_internal(&mut self, node: GraphNode<D>, presentation: Option<NodePresentation>)
        requires
            old(self).wf(),
            !old(self)@.nodes.contains_key(node.id.key()),
        ensures
            final(self).wf(),
            final(self).same_frame(&*old(self)),
            final(self)@ == old(self)@.with_node(node, presentation),
    {
        let ghost old_edges = self.edges@;
        let id = node.id.0.0;
        self.nodes.insert(id, node);
        self.outgoing.insert(id, BTreeSet::new());
        self.incoming.insert(id, BTreeSet::new());
        if let Some(presentation) = presentation {
            self.presentation.nodes.insert(id, presentation);
        }
        assert forall|e: u128| old_edges.contains_key(e) implies old_edges[e].from.node.key() != id
            && old_edges[e].to.node.key() != id by {
            assert(old(self)@.edges.contains_key(e));
        }
        assert(outgoing_of(old_edges, id) =~= Set::<u128>::empty());
        assert(incoming_of(old_edges, id) =~= Set::<u128>::empty());
        assert(self@ =~= old(self)@.with_node(node, presentation));
    }

    /// Inserts an edge that is not yet in the document between two existing nodes.
    pub(crate) fn insert_edge_internal(&mut self, edge: GraphEdge<D>)
        requires
            old(self).wf(),
            !old(self)@.edges.contains_key(edge.id.key()),
            old(self)@.nodes.contains_key(edge.from.node.key()),
            old(self)@.nodes.contains_key(edge.to.node.key()),
        ensures
            final(self).wf(),
            final(self).same_frame(&*old(self)),
            final(self)@ == old(self)@.with_edge(edge),
    {
        let ghost old_edges = self.edges@;
        let id = edge.id.0.0;
        let from = edge.from.node.0.0;
        let to = edge.to.node.0.0;
        index_insert(&mut self.outgoing, from, id);
        index_insert(&mut self.incoming, to, id);
        self.edges.insert(id, edge);
        assert(self.outgoing@.dom() =~= old(self).outgoing@.dom());
        assert(self.incoming@.dom() =~= old(self).incoming@.dom());
        assert forall|n: u128| #[trigger] self.outgoing@.contains_key(n) implies self.outgoing@[n]@
            == outgoing_of(self.edges@, n) by {
            assert(outgoing_of(self.edges@, n) =~= if n == from {
                outgoing_of(old_edges, n).insert(id)
            } else {
                outgoing_of(old_edges, n)
            });
        }
        assert forall|n: u128| #[trigger] self.incoming@.contains_key(n) implies self.incoming@[n]@
            == incoming_of(self.edges@, n) by {
            assert(incoming_of(self.edges@, n) =~= if n == to {
                incoming_of(old_edges, n).insert(id)
            } else {
                incoming_of(old_edges, n)
            });
        }
        assert(self@ =~= old(self)@.with_edge(edge));
    }

    /// Removes edge `id` when present and returns it.
    pub(crate) fn remove_edge_internal(&mut self, id: u128) -> (removed: Option<GraphEdge<D>>)
        requires
            old(self).wf(),
        ensures
            final(self).wf(),
            final(self).same_frame(&*old(self)),
            match removed {
                Some(edge) => old(self)@.edges.contains_key(id) && edge == old(self)@.edges[id]
                    && final(self)@ == old(self)@.without_edge(id),
                None => !old(self)@.edges.contains_key(id) && final(self)@ == old(self)@,
            },
    {
        let ghost old_edges = self.edges@;
        let edge = match self.edges.remove(&id) {
            Some(edge) => edge,
            None => {
                assert(self.edges@ =~= old_edges);
                return None;
            },
        };
        let from = edge.from.node.0.0;
        let to = edge.to.node.0.0;
        index_remove(&mut self.outgoing, from, id);
        index_remove(&mut self.incoming, to, id);
        assert forall|n: u128| #[trigger] self.outgoing@.contains_key(n) implies self.outgoing@[n]@
            == outgoing_of(self.edges@, n) by {
            assert(outgoing_of(self.edges@, n) =~= if n == from {
                outgoing_of(old_edges, n).remove(id)
            } else {
                outgoing_of(old_edges, n)
            });
        }
        assert forall|n: u128| #[trigger] self.incoming@.contains_key(n) implies self.incoming@[n]@
            == incoming_of(self.edges@, n) by {
            assert(incoming_of(self.edges@, n) =~= if n == to {
                incoming_of(old_edges, n).remove(id)
            } else {
                incoming_of(old_edges, n)
            });
        }
        assert(self@ =~= old(self)@.without_edge(id));
        Some(edge)
    }
    /// The nodes, in increasing identity order.
    pub fn nodes(&self) -> (nodes: Vec<&GraphNode<D>>)
        ensures
            nodes@.len() == self@.nodes.dom().len(),
            nodes@.len() == sorted_keys(self@.nodes.dom()).len(),
            strictly_increasing(sorted_keys(self@.nodes.dom())),
            sorted_keys(self@.nodes.dom()).to_set() == self@.nodes.dom(),
            forall|i: int| 0 <= i < nodes@.len() ==> *(#[trigger] nodes@[i]) == self@.nodes[sorted_keys(self@.nodes.dom())[i]],
    {
        let mut nodes: Vec<&GraphNode<D>> = Vec::new();
        for node in it: self.nodes.values()
            invariant
                nodes@.len() == it.index(),
                forall|i: int| 0 <= i < nodes@.len() ==> nodes@[i] == it.seq()[i],
        {
            nodes.push(node);
        }
        proof {
            let key_seq = choose|key_seq: Seq<u128>| {
                &&& increasing_seq(key_seq)
                &&& key_seq.to_set() == self.nodes@.dom()
                &&& key_seq.no_duplicates()
                &&& self.nodes.values().remaining() == key_seq.map(|i: int, k: u128| &self.nodes@[k])
            };
            lemma_increasing_keys(key_seq);
            lemma_sorted_keys_of(key_seq);
            key_seq.unique_seq_to_set();
        }
        nodes
    }

    /// The edges, in increasing identity order.
    pub fn edges(&self) -> (edges: Vec<&GraphEdge<D>>)
        ensures
            edges@.len() == self@.edges.dom().len(),
            edges@.len() == sorted_keys(self@.edges.dom()).len(),
            strictly_increasing(sorted_keys(self@.edges.dom())),
            sorted_keys(self@.edges.dom()).to_set() == self@.edges.dom(),
            forall|i: int| 0 <= i < edges@.len() ==> *(#[trigger] edges@[i]) == self@.edges[sorted_keys(self@.edges.dom())[i]],
    {
        let mut edges: Vec<&GraphEdge<D>> = Vec::new();
        for edge in it: self.edges.values()
            invariant
                edges@.len() == it.index(),
                forall|i: int| 0 <= i < edges@.len() ==> edges@[i] == it.seq()[i],
        {
            edges.push(edge);
        }
        proof {
            let key_seq = choose|key_seq: Seq<u128>| {
                &&& increasing_seq(key_seq)
                &&& key_seq.to_set() == self.edges@.dom()
                &&& key_seq.no_duplicates()
                &&& self.edges.values().remaining() == key_seq.map(|i: int, k: u128| &self.edges@[k])
            };
            lemma_increasing_keys(key_seq);
            lemma_sorted_keys_of(key_seq);
            key_seq.unique_seq_to_set();
        }
        edges
    }

    /// The edges listed under `key` in `index`, in increasing identity order.
    fn indexed_edges(&self, index: &BTreeMap<u128, BTreeSet<u128>>, key: u128) -> (edges: Vec<&GraphEdge<D>>)
        requires
            index@.contains_key(key) ==> forall|e: u128| #[trigger] index@[key]@.contains(e) ==> self.edges@.contains_key(e),
        ensures
            index@.contains_key(key) ==> strictly_increasing(sorted_keys(index@[key]@)) && sorted_keys(
                index@[key]@,
            ).to_set() == index@[key]@,
            index@.contains_key(key) ==> (edges@.len() == sorted_keys(index@[key]@).len() && forall|i: int|
                0 <= i < edges@.len() ==> *(#[trigger] edges@[i]) == self@.edges[sorted_keys(index@[key]@)[i]]),
            !index@.contains_key(key) ==> edges@.len() == 0,
    {
        let mut edges: Vec<&GraphEdge<D>> = Vec::new();
        if let Some(set) = index.get(&key) {
            let keys = sorted_vec(set);
            let mut i: usize = 0;
            while i < keys.len()
                invariant
                    i <= keys@.len(),
                    keys@.to_set() == index@[key]@,
                    keys@ == sorted_keys(index@[key]@),
                    forall|e: u128| #[trigger] index@[key]@.contains(e) ==> self.edges@.contains_key(e),
                    edges@.len() == i,
                    forall|j: int| 0 <= j < i ==> *(#[trigger] edges@[j]) == self@.edges[keys@[j]],
                decreases keys@.len() - i,
            {
                assert(keys@.contains(keys@[i as int]));
                assert(keys@.to_set().contains(keys@[i as int]));
                assert(index@[key]@.contains(keys@[i as int]));
                match self.edges.get(&keys[i]) {
                    Some(edge) => edges.push(edge),
                    None => {
                        assert(false);
                    },
                }
                i = i + 1;
            }
        }
        edges
    }

    /// The edges leaving `node`, in increasing identity order.
    pub fn outgoing_edges(&self, node: GraphNodeId) -> (edges: Vec<&GraphEdge<D>>)
        requires
            self.wf(),
        ensures
            strictly_increasing(sorted_keys(outgoing_of(self@.edges, node.key()))),
            sorted_keys(outgoing_of(self@.edges, node.key())).to_set() == outgoing_of(self@.edges, node.key()),
            edges@.len() == sorted_keys(outgoing_of(self@.edges, node.key())).len(),
            forall|i: int| 0 <= i < edges@.len() ==> *(#[trigger] edges@[i]) == self@.edges[sorted_keys(
                outgoing_of(self@.edges, node.key()),
            )[i]],
    {
        let key = node.0.0;
        let edges = self.indexed_edges(&self.outgoing, key);
        proof {
            if !self.outgoing@.contains_key(key) {
                assert forall|e: u128| self.edges@.contains_key(e) implies self.edges@[e].from.node.key() != key by {
                    assert(self@.edges.contains_key(e));
                }
                assert(outgoing_of(self@.edges, key) =~= Set::<u128>::empty());
                lemma_sorted_keys_of(Seq::<u128>::empty());
                assert(Seq::<u128>::empty().to_set() =~= Set::<u128>::empty());
            }
        }
        edges
    }

    /// The edges entering `node`, in increasing identity order.
    pub fn incoming_edges(&self, node: GraphNodeId) -> (edges: Vec<&GraphEdge<D>>)
        requires
            self.wf(),
        ensures
            strictly_increasing(sorted_keys(incoming_of(self@.edges, node.key()))),
            sorted_keys(incoming_of(self@.edges, node.key())).to_set() == incoming_of(self@.edges, node.key()),
            edges@.len() == sorted_keys(incoming_of(self@.edges, node.key())).len(),
            forall|i: int| 0 <= i < edges@.len() ==> *(#[trigger] edges@[i]) == self@.edges[sorted_keys(
                incoming_of(self@.edges, node.key()),
            )[i]],
    {
        let key = node.0.0;
        let edges = self.indexed_edges(&self.incoming, key);
        proof {
            if !self.incoming@.contains_key(key) {
                assert forall|e: u128| self.edges@.contains_key(e) implies self.edges@[e].to.node.key() != key by {
                    assert(self@.edges.contains_key(e));
                }
                assert(incoming_of(self@.edges, key) =~= Set::<u128>::empty());
                lemma_sorted_keys_of(Seq::<u128>::empty());
                assert(Seq::<u128>::empty().to_set() =~= Set::<u128>::empty());
            }
        }
        edges
    }

    /// Removes node `id` together with every incident edge and its
    /// presentation, returning what was removed; the incident edges come in
    /// increasing identity order.
    pub(crate) fn remove_node_internal(&mut self, id: u128) -> (removed: Option<RemovedNode<D>>)
        requires
            old(self).wf(),
        ensures
            final(self).wf(),
            final(self).same_frame(&*old(self)),
            match removed {
                Some(r) => {
                    &&& old(self)@.nodes.contains_key(id)
                    &&& r.node == old(self)@.nodes[id]
                    &&& r.presentation == old(self)@.node_presentation.get(id)
                    &&& r.edges@.len() == sorted_keys(incident_of(old(self)@.edges, id)).len()
                    &&& sorted_keys(incident_of(old(self)@.edges, id)).to_set() == incident_of(old(self)@.edges, id)
                    &&& sorted_keys(incident_of(old(self)@.edges, id)).no_duplicates()
                    &&& forall|k: int|
                        0 <= k < r.edges@.len() ==> #[trigger] r.edges@[k] == old(self)@.edges[sorted_keys(
                            incident_of(old(self)@.edges, id),
                        )[k]]
                    &&& final(self)@ == old(self)@.without_node(id)
                },
                None => !old(self)@.nodes.contains_key(id) && final(self)@ == old(self)@,
            },
    {
        let ghost old_state = self@;
        let ghost old_edges = self.edges@;
        let mut incident: BTreeSet<u128> = BTreeSet::new();
        if let Some(out) = self.outgoing.get(&id) {
            union_into(&mut incident, out);
        }
        if let Some(inc) = self.incoming.get(&id) {
            union_into(&mut incident, inc);
        }
        proof {
            if old_state.nodes.contains_key(id) {
                assert(incident@ =~= incident_of(old_edges, id));
            } else {
                assert forall|e: u128| old_edges.contains_key(e) implies old_edges[e].from.node.key() != id
                    && old_edges[e].to.node.key() != id by {
                    assert(old_state.edges.contains_key(e));
                }
                assert(incident@ =~= incident_of(old_edges, id));
            }
        }
        let keys = sorted_vec(&incident);
        let mut edges: Vec<GraphEdge<D>> = Vec::new();
        let mut i: usize = 0;
        while i < keys.len()
            invariant
                self.wf(),
                self.same_frame(&*old(self)),
                i <= keys@.len(),
                keys@ == sorted_keys(incident_of(old_edges, id)),
                keys@.to_set() == incident_of(old_edges, id),
                keys@.no_duplicates(),
                old_edges == old_state.edges,
                self@ == (GraphState { edges: old_edges.remove_keys(keys@.take(i as int).to_set()), ..old_state }),
                edges@.len() == i,
                forall|k: int| 0 <= k < i ==> #[trigger] edges@[k] == old_edges[keys@[k]],
            decreases keys@.len() - i,
        {
            let e = keys[i];
            assert(keys@.to_set().contains(e)) by {
                assert(keys@.contains(e));
            }
            assert(!keys@.take(i as int).contains(e)) by {
                if keys@.take(i as int).contains(e) {
                    let j = choose|j: int| 0 <= j < i && keys@.take(i as int)[j] == e;
                    assert(keys@[j] == keys@[i as int]);
                }
            }
            let removed = self.remove_edge_internal(e);
            match removed {
                Some(edge) => {
                    edges.push(edge);
                },
                None => {
                    assert(false);
                },
            }
            proof {
                keys@.take(i as int).lemma_push_to_set_commute(e);
                assert(keys@.take(i as int + 1) =~= keys@.take(i as int).push(e));
                assert(old_edges.remove_keys(keys@.take(i as int + 1).to_set()) =~= old_edges.remove_keys(
                    keys@.take(i as int).to_set(),
                ).remove(e));
            }
            i = i + 1;
        }
        assert(keys@.take(i as int) =~= keys@);
        let ghost mid_edges = self.edges@;
        assert forall|e: u128| mid_edges.contains_key(e) implies mid_edges[e].from.node.key() != id
            && mid_edges[e].to.node.key() != id by {
            assert(!incident_of(old_edges, e).contains(e) || true);
            assert(!keys@.to_set().contains(e));
        }
        assert(outgoing_of(mid_edges, id) =~= Set::<u128>::empty());
        self.outgoing.remove(&id);
        self.incoming.remove(&id);
        let presentation = self.presentation.nodes.remove(&id);
        let node = self.nodes.remove(&id);
        match node {
            Some(node) => {
                assert(self@ =~= old_state.without_node(id));
                assert(self.outgoing@.dom() =~= self.nodes@.dom());
                assert(self.incoming@.dom() =~= self.nodes@.dom());
                Some(RemovedNode { node, presentation, edges })
            },
            None => {
                assert(self.nodes@ =~= old_state.nodes);
                assert(self.edges@ =~= old_state.edges);
                assert(self.presentation.nodes@ =~= old_state.node_presentation);
                assert(self.outgoing@.dom() =~= self.nodes@.dom());
                assert(self.incoming@.dom() =~= self.nodes@.dom());
                assert(self@ =~= old_state);
                None
            },
        }
    }

    /// Replaces the data of node `id` when present and returns the previous data.
    pub(crate) fn replace_node_data(&mut self, id: u128, data: D::NodeData) -> (previous: Option<D::NodeData>)
        requires
            old(self).wf(),
        ensures
            final(self).wf(),
            final(self).same_frame(&*old(self)),
            match previous {
                Some(p) => old(self)@.nodes.contains_key(id) && p == old(self)@.nodes[id].data
                    && final(self)@ == old(self)@.with_node_data(id, data),
                None => !old(self)@.nodes.contains_key(id) && final(self)@ == old(self)@,
            },
    {
        match self.nodes.remove(&id) {
            Some(current) => {
                let GraphNode { id: node_id, data: previous } = current;
                self.nodes.insert(id, GraphNode { id: node_id, data });
                assert(self.nodes@.dom() =~= old(self).nodes@.dom());
                assert(self@ =~= old(self)@.with_node_data(id, data));
                Some(previous)
            },
            None => {
                assert(self.nodes@ =~= old(self).nodes@);
                assert(self@ =~= old(self)@);
                None
            },
        }
    }

    /// Sets (`Some`) or clears (`None`) the presentation of node `id`,
    /// returning the previous one.
    pub(crate) fn set_node_presentation(&mut self, id: u128, presentation: Option<NodePresentation>) -> (previous:
        Option<NodePresentation>)
        requires
            old(self).wf(),
            presentation is Some ==> old(self)@.nodes.contains_key(id),
        ensures
            final(self).wf(),
            final(self).same_frame(&*old(self)),
            previous == old(self)@.node_presentation.get(id),
            final(self)@ == old(self)@.with_node_presentation(id, presentation),
    {
        let previous = match presentation {
            Some(p) => self.presentation.nodes.insert(id, p),
            None => self.presentation.nodes.remove(&id),
        };
        assert(self@ =~= old(self)@.with_node_presentation(id, presentation));
        previous
    }

    /// Sets or clears comment `id`, returning the previous one.
    pub(crate) fn set_comment(&mut self, id: u128, comment: Option<GraphComment>) -> (previous: Option<GraphComment>)
        requires
            old(self).wf(),
        ensures
            final(self).wf(),
            final(self).same_frame(&*old(self)),
            previous == old(self)@.comments.get(id),
            final(self)@ == old(self)@.with_comment(id, comment),
    {
        let previous = match comment {
            Some(c) => self.presentation.comments.insert(id, c),
            None => self.presentation.comments.remove(&id),
        };
        assert(self@ =~= old(self)@.with_comment(id, comment));
        previous
    }

    /// Sets or clears group `id`, returning the previous one.
    pub(crate) fn set_group(&mut self, id: u128, group: Option<GraphGroup>) -> (previous: Option<GraphGroup>)
        requires
            old(self).wf(),
        ensures
            final(self).wf(),
            final(self).same_frame(&*old(self)),
            previous == old(self)@.groups.get(id),
            final(self)@ == old(self)@.with_group(id, group),
    {
        let previous = match group {
            Some(g) => self.presentation.groups.insert(id, g),
            None => self.presentation.groups.remove(&id),
        };
        assert(self@ =~= old(self)@.with_group(id, group));
        previous
    }

    /// Sets or clears bookmark `id`, returning the previous one.
    pub(crate) fn set_bookmark(&mut self, id: u128, bookmark: Option<ViewportBookmark>) -> (previous: Option<
        ViewportBookmark,
    >)
        requires
            old(self).wf(),
        ensures
            final(self).wf(),
            final(self).same_frame(&*old(self)),
            previous == old(self)@.bookmarks.get(id),
            final(self)@ == old(self)@.with_bookmark(id, bookmark),
    {
        let previous = match bookmark {
            Some(b) => self.presentation.bookmarks.insert(id, b),
            None => self.presentation.bookmarks.remove(&id),
        };
        assert(self@ =~= old(self)@.with_bookmark(id, bookmark));
        previous
    }

    /// Whether node `reference.node` exists and its domain ports include
    /// `reference.port` with `direction`.
    pub(crate) fn has_port(&self, reference: PortRef, direction: PortDirection) -> (found: bool)
        ensures
            found ==> self@.nodes.contains_key(reference.node.key()),
            !self@.nodes.contains_key(reference.node.key()) ==> !found,
            self@.nodes.contains_key(reference.node.key()) ==> exists|ports: Vec<PortDescriptor<D::PortData>>|
                {
                    &&& call_ensures(
                        D::node_ports,
                        (&self.spec_domain(), &self@.nodes[reference.node.key()].data, self),
                        ports,
                    )
                    &&& found == port_listed(ports@, reference.port, direction)
                },
            found ==> port_offered(self, reference, direction),
            !found ==> port_refused(self, reference, direction),
    {
        let node = match self.nodes.get(&reference.node.0.0) {
            Some(node) => node,
            None => return false,
        };
        let ports = self.domain.node_ports(&node.data, self);
        assert(call_ensures(D::node_ports, (&self.spec_domain(), &self@.nodes[reference.node.key()].data, self), ports));
        let mut i: usize = 0;
        while i < ports.len()
            invariant
                i <= ports@.len(),
                self.nodes@.contains_key(reference.node.key()),
                call_ensures(D::node_ports, (&self.spec_domain(), &self@.nodes[reference.node.key()].data, self), ports),
                forall|j: int|
                    0 <= j < i ==> !(#[trigger] ports@[j].id == reference.port && ports@[j].direction == direction),
            decreases ports@.len() - i,
        {
            if ports[i].id == reference.port && ports[i].direction == direction {
                assert(port_listed(ports@, reference.port, direction));
                return true;
            }
            i = i + 1;
        }
        false
    }

    /// Every node has an entry in both topology indexes.
    pub closed spec fn nodes_indexed(&self) -> bool {
        forall|k: u128| #[trigger] self.nodes@.contains_key(k) ==> self.outgoing@.contains_key(k) && self.incoming@.contains_key(k)
    }

    /// The edge stored under `k` joins two existing nodes.
    pub closed spec fn edge_attached(&self, k: u128) -> bool {
        &&& self.nodes@.contains_key(self.edges@[k].from.node.key())
        &&& self.nodes@.contains_key(self.edges@[k].to.node.key())
    }

    /// The edge stored under `k` is listed under `k` in the outgoing index of
    /// its source and the incoming index of its target.
    pub closed spec fn edge_listed(&self, k: u128) -> bool {
        &&& self.outgoing@[self.edges@[k].from.node.key()]@.contains(k)
        &&& self.incoming@[self.edges@[k].to.node.key()]@.contains(k)
    }

    /// Whether the topology indexes agree with the nodes and edges.
    pub open spec fn indexes_consistent(&self) -> bool {
        &&& self.nodes_indexed()
        &&& forall|k: u128| #[trigger] self@.edges.contains_key(k) ==> self.edge_attached(k) && self.edge_listed(k)
    }

    /// Checks that every node has topology indexes, that edges join existing
    /// nodes and that every edge is listed in the indexes of its nodes; the
    /// error names a node or an edge for which that fails.
    pub fn assert_invariants(&self) -> (result: Result<(), GraphTopologyError>)
        ensures
            self.wf() ==> result is Ok,
            result is Ok <==> self.indexes_consistent(),
            match result {
                Ok(()) => true,
                Err(GraphTopologyError::MissingNodeIndex(node)) => self@.nodes.contains_key(node.key())
                    && !self.nodes_indexed(),
                Err(GraphTopologyError::DanglingEdge(edge)) => self.nodes_indexed() && self@.edges.contains_key(
                    edge.key(),
                ) && !self.edge_attached(edge.key()),
                Err(GraphTopologyError::MissingEdgeIndex(edge)) => self.nodes_indexed() && self@.edges.contains_key(
                    edge.key(),
                ) && self.edge_attached(edge.key()) && !self.edge_listed(edge.key()),
                Err(GraphTopologyError::MissingPort(_)) => false,
            },
    {
        proof {
            if self.wf() {
                self.lemma_wf_content();
            }
        }
        let keys = sorted_vec_of_map(&self.nodes);
        let mut i: usize = 0;
        while i < keys.len()
            invariant
                i <= keys@.len(),
                keys@.to_set() == self.nodes@.dom(),
                self.wf() ==> state_wf(self@),
                forall|m: int|
                    0 <= m < i ==> self.outgoing@.contains_key(#[trigger] keys@[m]) && self.incoming@.contains_key(
                        keys@[m],
                    ),
            decreases keys@.len() - i,
        {
            let key = keys[i];
            proof {
                assert(keys@.contains(key));
            }
            if !self.outgoing.contains_key(&key) || !self.incoming.contains_key(&key) {
                proof {
                    assert(keys@.to_set().contains(key));
                    assert(self.nodes@.contains_key(key));
                    assert(!self.nodes_indexed());
                }
                return Err(GraphTopologyError::MissingNodeIndex(GraphNodeId(EntityId(key))));
            }
            i = i + 1;
        }
        assert(self.nodes_indexed()) by {
            assert forall|k: u128| #[trigger] self.nodes@.contains_key(k) implies self.outgoing@.contains_key(k)
                && self.incoming@.contains_key(k) by {
                assert(keys@.to_set().contains(k));
                assert(keys@.contains(k));
                let m = choose|m: int| 0 <= m < keys@.len() && keys@[m] == k;
                assert(self.outgoing@.contains_key(keys@[m]));
            }
        }
        let edge_keys = sorted_vec_of_map(&self.edges);
        let mut j: usize = 0;
        while j < edge_keys.len()
            invariant
                j <= edge_keys@.len(),
                edge_keys@.to_set() == self.edges@.dom(),
                self.nodes_indexed(),
                self.wf() ==> state_wf(self@),
                forall|m: int|
                    0 <= m < j ==> self.edge_attached(#[trigger] edge_keys@[m]) && self.edge_listed(edge_keys@[m]),
            decreases edge_keys@.len() - j,
        {
            let key = edge_keys[j];
            proof {
                assert(edge_keys@.contains(key));
                assert(self.edges@.contains_key(key));
                assert(self@.edges.contains_key(key));
                if self.wf() {
                    let from_key = self.edges@[key].from.node.key();
                    let to_key = self.edges@[key].to.node.key();
                    assert(self.nodes@.contains_key(from_key));
                    assert(self.outgoing@.contains_key(from_key));
                    assert(outgoing_of(self.edges@, from_key).contains(key));
                    assert(self.incoming@.contains_key(to_key));
                    assert(incoming_of(self.edges@, to_key).contains(key));
                    assert(self.edge_listed(key));
                }
            }
            let edge = match self.edges.get(&key) {
                Some(edge) => edge,
                None => {
                    assert(false);
                    return Ok(());
                },
            };
            let from = edge.from.node.0.0;
            let to = edge.to.node.0.0;
            if !self.nodes.contains_key(&from) || !self.nodes.contains_key(&to) {
                proof {
                    assert(!self.edge_attached(key));
                    assert(!self.indexes_consistent());
                }
                return Err(GraphTopologyError::DanglingEdge(GraphEdgeId(EntityId(key))));
            }
            let listed_out = match self.outgoing.get(&from) {
                Some(set) => set.contains(&key),
                None => false,
            };
            let listed_in = match self.incoming.get(&to) {
                Some(set) => set.contains(&key),
                None => false,
            };
            if !listed_out || !listed_in {
                proof {
                    assert(self.edge_attached(key));
                    assert(!self.edge_listed(key));
                    assert(!self.indexes_consistent());
                }
                return Err(GraphTopologyError::MissingEdgeIndex(GraphEdgeId(EntityId(key))));
            }
            j = j + 1;
        }
        assert forall|k: u128| #[trigger] self@.edges.contains_key(k) implies self.edge_attached(k) && self.edge_listed(
            k,
        ) by {
            assert(edge_keys@.to_set().contains(k));
            assert(edge_keys@.contains(k));
            let m = choose|m: int| 0 <= m < edge_keys@.len() && edge_keys@[m] == k;
            assert(self.edge_attached(edge_keys@[m]));
        }
        Ok(())
    }
}

/// The keys of `map`, in increasing order.
fn sorted_vec_of_map<V>(map: &BTreeMap<u128, V>) -> (keys: Vec<u128>)
    ensures
        keys@.to_set() == map@.dom(),
{
    let mut keys: Vec<u128> = Vec::new();
    for key in it: map.keys()
        invariant
            keys@.len() == it.index(),
            forall|i: int| 0 <= i < keys@.len() ==> keys@[i] == *it.seq()[i],
    {
        keys.push(*key);
    }
    assert(keys@ =~= map.keys().remaining().unref());
    keys
}

/// A broken topology invariant of a graph document.
#[derive(Clone, Copy, Debug, PartialEq, Eq, Structural)]
pub enum GraphTopologyError {
    /// A node has no topology index entries.
    MissingNodeIndex(GraphNodeId),
    /// An edge references a missing node.
    DanglingEdge(GraphEdgeId),
    /// An edge is missing from a topology index.
    MissingEdgeIndex(GraphEdgeId),
    /// A port is unavailable.
    MissingPort(GraphPortId),
}

} // verus!
