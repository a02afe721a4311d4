//! Atomic graph transactions with precise change sets and full rollback.
//!
//! A transaction applies its operations in order. If any operation fails, or
//! the domain's whole-graph validation reports an error, every operation that
//! was already applied is undone in reverse order and the document is left
//! exactly as it was. Otherwise the document advances by one revision and the
//! commit lists every change in the order it was made.

use vstd::prelude::*;
use crate::model::{EntityId, Revision};
use super::document::{
    GraphDocument, GraphEdge, GraphNode, GraphState, RemovedNode, incident_of, port_offered, port_refused, state_wf,
};
use super::domain::{DiagnosticSeverity, GraphDiagnostic, GraphDomain, PortDirection, PortRef};
use super::ids::{GraphEdgeId, GraphNodeId};
use super::keys::{sorted_keys, strictly_increasing};
use super::presentation::{GraphComment, GraphGroup, NodePresentation, ViewportBookmark};

verus! {

broadcast use {vstd::std_specs::btree::group_btree_axioms, vstd::laws_cmp::group_laws_cmp};

/// One precise change that a committed transaction made.
#[derive(Clone, Copy, Debug, PartialEq, Eq, Structural)]
pub enum GraphChange {
    NodeInserted(GraphNodeId),
    NodeRemoved(GraphNodeId),
    NodeReplaced(GraphNodeId),
    EdgeInserted(GraphEdgeId),
    EdgeRemoved(GraphEdgeId),
    NodePresentationChanged(GraphNodeId),
    CommentChanged(EntityId),
    CommentRemoved(EntityId),
    GroupChanged(EntityId),
    GroupRemoved(EntityId),
    BookmarkChanged(EntityId),
    BookmarkRemoved(EntityId),
}

/// The changes of one committed transaction and the revision transition it owns.
#[derive(Clone, Debug)]
pub struct GraphChangeSet {
    pub before: Revision,
    pub after: Revision,
    pub changes: Vec<GraphChange>,
}

/// One edit of a graph document.
pub enum GraphOperation<D: GraphDomain> {
    InsertNode { node: GraphNode<D>, presentation: Option<NodePresentation> },
    RemoveNode { node: GraphNodeId },
    ReplaceNode { node: GraphNodeId, data: D::NodeData },
    Connect { edge: GraphEdge<D> },
    Disconnect { edge: GraphEdgeId },
    SetNodePresentation { node: GraphNodeId, presentation: NodePresentation },
    UpsertComment(GraphComment),
    RemoveComment(EntityId),
    UpsertGroup(GraphGroup),
    RemoveGroup(EntityId),
    UpsertBookmark(ViewportBookmark),
    RemoveBookmark(EntityId),
}

/// Operations to apply atomically against an expected revision.
pub struct GraphTransaction<D: GraphDomain> {
    pub expected_revision: Revision,
    pub operations: Vec<GraphOperation<D>>,
}

impl<D: GraphDomain> GraphTransaction<D> {
    pub fn new(expected_revision: Revision) -> (transaction: Self)
        ensures
            transaction.expected_revision == expected_revision,
            transaction.operations@.len() == 0,
    {
        GraphTransaction { expected_revision, operations: Vec::new() }
    }

    pub fn push(&mut self, operation: GraphOperation<D>)
        ensures
            final(self).expected_revision == old(self).expected_revision,
            final(self).operations@ == old(self).operations@.push(operation),
    {
        self.operations.push(operation);
    }
}

/// A committed transaction: its change set and the domain's non-fatal diagnostics.
#[derive(Clone, Debug)]
pub struct GraphCommit {
    pub change_set: GraphChangeSet,
    pub diagnostics: Vec<GraphDiagnostic>,
}

#[derive(Clone, Debug)]
pub enum GraphTransactionError {
    RevisionConflict { expected: Revision, actual: Revision },
    EmptyTransaction,
    RevisionExhausted,
    DuplicateNode(GraphNodeId),
    MissingNode(GraphNodeId),
    DuplicateEdge(GraphEdgeId),
    MissingEdge(GraphEdgeId),
    MissingPort(PortRef),
    MissingComment(EntityId),
    MissingGroup(EntityId),
    MissingBookmark(EntityId),
    Connection(GraphDiagnostic),
    Validation(Vec<GraphDiagnostic>),
}

/// The description of the kind of a transaction error.
pub open spec fn transaction_error_text(error: GraphTransactionError) -> Seq<char> {
    match error {
        GraphTransactionError::RevisionConflict { .. } => "graph revision conflict"@,
        GraphTransactionError::EmptyTransaction => "empty graph transactions are forbidden"@,
        GraphTransactionError::RevisionExhausted => "graph revision space is exhausted"@,
        GraphTransactionError::DuplicateNode(_) => "node already exists"@,
        GraphTransactionError::MissingNode(_) => "node does not exist"@,
        GraphTransactionError::DuplicateEdge(_) => "edge already exists"@,
        GraphTransactionError::MissingEdge(_) => "edge does not exist"@,
        GraphTransactionError::MissingPort(_) => "port does not exist with the required direction"@,
        GraphTransactionError::MissingComment(_) => "comment does not exist"@,
        GraphTransactionError::MissingGroup(_) => "group does not exist"@,
        GraphTransactionError::MissingBookmark(_) => "viewport bookmark does not exist"@,
        GraphTransactionError::Connection(_) => "connection rejected"@,
        GraphTransactionError::Validation(_) => "graph validation rejected the transaction"@,
    }
}

impl GraphTransactionError {
    /// Human-readable description of the error kind.
    pub fn message(&self) -> (text: &'static str)
        ensures
            text@ == transaction_error_text(*self),
    {
        match self {
            GraphTransactionError::RevisionConflict { .. } => "graph revision conflict",
            GraphTransactionError::EmptyTransaction => "empty graph transactions are forbidden",
            GraphTransactionError::RevisionExhausted => "graph revision space is exhausted",
            GraphTransactionError::DuplicateNode(_) => "node already exists",
            GraphTransactionError::MissingNode(_) => "node does not exist",
            GraphTransactionError::DuplicateEdge(_) => "edge already exists",
            GraphTransactionError::MissingEdge(_) => "edge does not exist",
            GraphTransactionError::MissingPort(_) => "port does not exist with the required direction",
            GraphTransactionError::MissingComment(_) => "comment does not exist",
            GraphTransactionError::MissingGroup(_) => "group does not exist",
            GraphTransactionError::MissingBookmark(_) => "viewport bookmark does not exist",
            GraphTransactionError::Connection(_) => "connection rejected",
            GraphTransactionError::Validation(_) => "graph validation rejected the transaction",
        }
    }
}

/// What undoes one applied operation.
enum Undo<D: GraphDomain> {
    RemoveNode(u128),
    RestoreNode { node: GraphNode<D>, presentation: Option<NodePresentation>, edges: Vec<GraphEdge<D>> },
    RestoreNodeData { node: u128, data: D::NodeData },
    RemoveEdge(u128),
    RestoreEdge(GraphEdge<D>),
    RestorePresentation { node: u128, presentation: Option<NodePresentation> },
    RestoreComment { id: u128, comment: Option<GraphComment> },
    RestoreGroup { id: u128, group: Option<GraphGroup> },
    RestoreBookmark { id: u128, bookmark: Option<ViewportBookmark> },
}

/// The effect of one operation on `s` when it is accepted, with the changes
/// it reports; `None` when the operation is refused whatever the domain says.
/// A connection between two existing nodes under a fresh edge identity may
/// still be refused by the domain's port list or connection rule.
pub open spec fn operation_effect<D: GraphDomain>(s: GraphState<D>, op: GraphOperation<D>) -> Option<
    (GraphState<D>, Seq<GraphChange>),
> {
    match op {
        GraphOperation::InsertNode { node, presentation } => if s.nodes.contains_key(node.id.key()) {
            None
        } else {
            Some((s.with_node(node, presentation), seq![GraphChange::NodeInserted(node.id)]))
        },
        GraphOperation::RemoveNode { node } => if !s.nodes.contains_key(node.key()) {
            None
        } else {
            Some(
                (
                    s.without_node(node.key()),
                    sorted_keys(incident_of(s.edges, node.key())).map_values(
                        |e: u128| GraphChange::EdgeRemoved(s.edges[e].id),
                    ) + seq![GraphChange::NodeRemoved(node)],
                ),
            )
        },
        GraphOperation::ReplaceNode { node, data } => if !s.nodes.contains_key(node.key()) {
            None
        } else {
            Some((s.with_node_data(node.key(), data), seq![GraphChange::NodeReplaced(node)]))
        },
        GraphOperation::Connect { edge } => if s.edges.contains_key(edge.id.key()) || !s.nodes.contains_key(
            edge.from.node.key(),
        ) || !s.nodes.contains_key(edge.to.node.key()) {
            None
        } else {
            Some((s.with_edge(edge), seq![GraphChange::EdgeInserted(edge.id)]))
        },
        GraphOperation::Disconnect { edge } => if !s.edges.contains_key(edge.key()) {
            None
        } else {
            Some((s.without_edge(edge.key()), seq![GraphChange::EdgeRemoved(edge)]))
        },
        GraphOperation::SetNodePresentation { node, presentation } => if !s.nodes.contains_key(node.key()) {
            None
        } else {
            Some(
                (
                    s.with_node_presentation(node.key(), Some(presentation)),
                    seq![GraphChange::NodePresentationChanged(node)],
                ),
            )
        },
        GraphOperation::UpsertComment(comment) => Some(
            (s.with_comment(comment.id.0, Some(comment)), seq![GraphChange::CommentChanged(comment.id)]),
        ),
        GraphOperation::RemoveComment(id) => if !s.comments.contains_key(id.0) {
            None
        } else {
            Some((s.with_comment(id.0, None), seq![GraphChange::CommentRemoved(id)]))
        },
        GraphOperation::UpsertGroup(group) => if exists|n: u128|
            #[trigger] group.nodes@.contains(n) && !s.nodes.contains_key(n) {
            None
        } else {
            Some((s.with_group(group.id.0, Some(group)), seq![GraphChange::GroupChanged(group.id)]))
        },
        GraphOperation::RemoveGroup(id) => if !s.groups.contains_key(id.0) {
            None
        } else {
            Some((s.with_group(id.0, None), seq![GraphChange::GroupRemoved(id)]))
        },
        GraphOperation::UpsertBookmark(bookmark) => Some(
            (s.with_bookmark(bookmark.id.0, Some(bookmark)), seq![GraphChange::BookmarkChanged(bookmark.id)]),
        ),
        GraphOperation::RemoveBookmark(id) => if !s.bookmarks.contains_key(id.0) {
            None
        } else {
            Some((s.with_bookmark(id.0, None), seq![GraphChange::BookmarkRemoved(id)]))
        },
    }
}

/// The error with which `op`, an operation other than a connection, is
/// refused in state `s`: the identity it names is taken or missing, or, for a
/// group, the smallest of its nodes that `s` lacks.
pub open spec fn refusal<D: GraphDomain>(s: GraphState<D>, op: GraphOperation<D>, error: GraphTransactionError) -> bool {
    match op {
        GraphOperation::InsertNode { node, .. } => error == GraphTransactionError::DuplicateNode(node.id),
        GraphOperation::RemoveNode { node } => error == GraphTransactionError::MissingNode(node),
        GraphOperation::ReplaceNode { node, .. } => error == GraphTransactionError::MissingNode(node),
        GraphOperation::SetNodePresentation { node, .. } => error == GraphTransactionError::MissingNode(node),
        GraphOperation::Disconnect { edge } => error == GraphTransactionError::MissingEdge(edge),
        GraphOperation::RemoveComment(id) => error == GraphTransactionError::MissingComment(id),
        GraphOperation::RemoveGroup(id) => error == GraphTransactionError::MissingGroup(id),
        GraphOperation::RemoveBookmark(id) => error == GraphTransactionError::MissingBookmark(id),
        GraphOperation::UpsertGroup(group) => match error {
            GraphTransactionError::MissingNode(n) => {
                &&& group.nodes@.contains(n.key())
                &&& !s.nodes.contains_key(n.key())
                &&& forall|m: u128| #[trigger] group.nodes@.contains(m) && m < n.key() ==> s.nodes.contains_key(m)
            },
            _ => false,
        },
        _ => false,
    }
}

/// Both ends of `edge` are offered by `document`, and the domain's connection
/// rule, asked about `edge` in `document`, may answer `answer`.
pub open spec fn connection_ruled<D: GraphDomain>(
    document: &GraphDocument<D>,
    edge: GraphEdge<D>,
    answer: Result<(), GraphDiagnostic>,
) -> bool {
    &&& port_offered(document, edge.from, PortDirection::Output)
    &&& port_offered(document, edge.to, PortDirection::Input)
    &&& call_ensures(
        D::validate_connection,
        (
            &document.spec_domain(),
            document,
            Some(&document@.nodes[edge.from.node.key()].data),
            Some(&document@.nodes[edge.to.node.key()].data),
            edge.from,
            edge.to,
            &edge.data,
        ),
        answer,
    )
}

/// The error with which connecting `edge` in `document` is refused: a taken
/// edge identity; else a source that does not offer the output port; else a
/// target that does not offer the input port; else the domain's rejection.
pub open spec fn connect_refused<D: GraphDomain>(
    document: &GraphDocument<D>,
    edge: GraphEdge<D>,
    error: GraphTransactionError,
) -> bool {
    if document@.edges.contains_key(edge.id.key()) {
        error == GraphTransactionError::DuplicateEdge(edge.id)
    } else {
        match error {
            GraphTransactionError::MissingPort(p) => {
                ||| p == edge.from && port_refused(document, edge.from, PortDirection::Output)
                ||| p == edge.to && port_offered(document, edge.from, PortDirection::Output) && port_refused(
                    document,
                    edge.to,
                    PortDirection::Input,
                )
            },
            GraphTransactionError::Connection(d) => connection_ruled(document, edge, Err(d)),
            _ => false,
        }
    }
}

/// `op`, applied to `document`, is refused with `error`.
pub open spec fn operation_refused<D: GraphDomain>(
    document: &GraphDocument<D>,
    op: GraphOperation<D>,
    error: GraphTransactionError,
) -> bool {
    match op {
        GraphOperation::Connect { edge } => connect_refused(document, edge, error),
        _ => operation_effect(document@, op) is None && refusal(document@, op, error),
    }
}

/// Operation `k` of `ops` is refused with `error` by `document`, a document of
/// the frame of `origin` holding the effect of the operations before it.
pub open spec fn refused_at<D: GraphDomain>(
    origin: &GraphDocument<D>,
    ops: Seq<GraphOperation<D>>,
    k: int,
    document: GraphDocument<D>,
    error: GraphTransactionError,
) -> bool {
    &&& 0 <= k < ops.len()
    &&& document.same_frame(origin)
    &&& transaction_effect(origin@, ops.take(k)) matches Some(prefix) && document@ == prefix.0
    &&& operation_refused(&document, ops[k], error)
}

/// When operation `k` of `ops` is a connection, a document of the frame of
/// `origin` holding the effect of the operations before it offers both ends
/// and the domain's connection rule may accept it there.
pub open spec fn connection_accepted_at<D: GraphDomain>(
    origin: &GraphDocument<D>,
    ops: Seq<GraphOperation<D>>,
    k: int,
) -> bool {
    ops[k] matches GraphOperation::Connect { edge } ==> exists|document: GraphDocument<D>|
        {
            &&& document.same_frame(origin)
            &&& transaction_effect(origin@, ops.take(k)) matches Some(prefix) && document@ == prefix.0
            &&& #[trigger] connection_ruled(&document, edge, Ok(()))
        }
}

/// The domain's whole-graph validation, asked about a document of the frame
/// of `origin` whose content is `state` and about the change set from
/// `before` to `after` with `changes`, may answer `diagnostics`.
pub open spec fn graph_validated<D: GraphDomain>(
    origin: &GraphDocument<D>,
    state: GraphState<D>,
    before: Revision,
    after: Revision,
    changes: Seq<GraphChange>,
    diagnostics: Vec<GraphDiagnostic>,
) -> bool {
    exists|document: GraphDocument<D>, change_set: GraphChangeSet|
        {
            &&& document.same_frame(origin)
            &&& document@ == state
            &&& change_set.before == before
            &&& change_set.after == after
            &&& change_set.changes@ == changes
            &&& #[trigger] call_ensures(D::validate_graph, (&document.spec_domain(), &document, &change_set), diagnostics)
        }
}

/// Whether `diagnostics` holds an error-severity diagnostic.
pub open spec fn has_error(diagnostics: Seq<GraphDiagnostic>) -> bool {
    exists|i: int| 0 <= i < diagnostics.len() && #[trigger] diagnostics[i].severity == DiagnosticSeverity::Error
}

/// The effect of the operations `ops`, applied in order, with the
/// concatenation of their changes; `None` as soon as one is refused.
pub open spec fn transaction_effect<D: GraphDomain>(s: GraphState<D>, ops: Seq<GraphOperation<D>>) -> Option<
    (GraphState<D>, Seq<GraphChange>),
>
    decreases ops.len(),
{
    if ops.len() == 0 {
        Some((s, Seq::empty()))
    } else {
        match transaction_effect(s, ops.drop_last()) {
            None => None,
            Some(prefix) => match operation_effect(prefix.0, ops.last()) {
                None => None,
                Some(step) => Some((step.0, prefix.1 + step.1)),
            },
        }
    }
}

/// Two lists of operations applied one after the other take the effect of
/// the first, then of the second on its result.
pub proof fn lemma_effect_concat<D: GraphDomain>(
    s: GraphState<D>,
    a: Seq<GraphOperation<D>>,
    b: Seq<GraphOperation<D>>,
)
    ensures
        transaction_effect(s, a + b) == match transaction_effect(s, a) {
            None => None,
            Some(first) => match transaction_effect(first.0, b) {
                None => None,
                Some(second) => Some((second.0, first.1 + second.1)),
            },
        },
    decreases b.len(),
{
    if b.len() == 0 {
        assert(a + b =~= a);
        if let Some(first) = transaction_effect(s, a) {
            assert(first.1 + Seq::<GraphChange>::empty() =~= first.1);
        }
    } else {
        lemma_effect_concat(s, a, b.drop_last());
        assert((a + b).drop_last() =~= a + b.drop_last());
        assert((a + b).last() == b.last());
        if let Some(first) = transaction_effect(s, a) {
            if let Some(middle) = transaction_effect(first.0, b.drop_last()) {
                if let Some(step) = operation_effect(middle.0, b.last()) {
                    assert(first.1 + (middle.1 + step.1) =~= (first.1 + middle.1) + step.1);
                }
            }
        }
    }
}

/// When operations take effect, so does every prefix of them.
proof fn lemma_effect_prefix<D: GraphDomain>(s: GraphState<D>, ops: Seq<GraphOperation<D>>, k: int)
    requires
        0 <= k <= ops.len(),
        transaction_effect(s, ops) is Some,
    ensures
        transaction_effect(s, ops.take(k)) is Some,
    decreases ops.len() - k,
{
    if k == ops.len() {
        assert(ops.take(k) =~= ops);
    } else {
        lemma_effect_prefix(s, ops, k + 1);
        assert(ops.take(k + 1).drop_last() =~= ops.take(k));
    }
}

/// `u` turns state `post` back into state `pre`.
spec fn undo_reverts<D: GraphDomain>(u: Undo<D>, post: GraphState<D>, pre: GraphState<D>) -> bool {
    &&& state_wf(pre)
    &&& match u {
        Undo::RemoveNode(k) => post.nodes.contains_key(k) && pre == post.without_node(k),
        Undo::RestoreNode { node, presentation, edges } => {
            let k = node.id.key();
            &&& pre.nodes.contains_key(k)
            &&& node == pre.nodes[k]
            &&& presentation == pre.node_presentation.get(k)
            &&& post == pre.without_node(k)
            &&& edges@.len() == sorted_keys(incident_of(pre.edges, k)).len()
            &&& sorted_keys(incident_of(pre.edges, k)).to_set() == incident_of(pre.edges, k)
            &&& sorted_keys(incident_of(pre.edges, k)).no_duplicates()
            &&& forall|i: int|
                0 <= i < edges@.len() ==> #[trigger] edges@[i] == pre.edges[sorted_keys(
                    incident_of(pre.edges, k),
                )[i]]
        },
        Undo::RestoreNodeData { node, data } => post.nodes.contains_key(node) && pre == post.with_node_data(
            node,
            data,
        ),
        Undo::RemoveEdge(k) => post.edges.contains_key(k) && pre == post.without_edge(k),
        Undo::RestoreEdge(edge) => !post.edges.contains_key(edge.id.key()) && pre == post.with_edge(edge),
        Undo::RestorePresentation { node, presentation } => pre == post.with_node_presentation(node, presentation),
        Undo::RestoreComment { id, comment } => pre == post.with_comment(id, comment),
        Undo::RestoreGroup { id, group } => pre == post.with_group(id, group),
        Undo::RestoreBookmark { id, bookmark } => pre == post.with_bookmark(id, bookmark),
    }
}

proof fn lemma_insert_then_remove<D: GraphDomain>(
    pre: GraphState<D>,
    node: GraphNode<D>,
    presentation: Option<NodePresentation>,
)
    requires
        state_wf(pre),
        !pre.nodes.contains_key(node.id.key()),
    ensures
        pre.with_node(node, presentation).without_node(node.id.key()) == pre,
{
    let k = node.id.key();
    let post = pre.with_node(node, presentation);
    assert forall|e: u128| pre.edges.contains_key(e) implies pre.edges[e].from.node.key() != k
        && pre.edges[e].to.node.key() != k by {}
    assert(incident_of(post.edges, k) =~= Set::<u128>::empty());
    assert(post.edges.remove_keys(Set::<u128>::empty()) =~= pre.edges);
    assert(post.nodes.remove(k) =~= pre.nodes);
    assert(!pre.node_presentation.contains_key(k));
    assert(post.node_presentation.remove(k) =~= pre.node_presentation);
    assert(post.without_node(k) =~= pre);
}

impl<D: GraphDomain> GraphDocument<D> {
    /// Applies `transaction` atomically: at the current revision, with at
    /// least one operation and a next revision, its operations apply in
    /// order; the first refused one, or an error-severity diagnostic of the
    /// domain's graph validation, leaves the document as it was. Otherwise the
    /// document advances one revision and the commit lists every change.
    pub fn apply(&mut self, transaction: GraphTransaction<D>) -> (result: Result<GraphCommit, GraphTransactionError>)
        requires
            old(self).wf(),
        ensures
            final(self).wf(),
            final(self).same_frame(&*old(self)),
            (result is Err) ==> final(self)@ == old(self)@,
            transaction.expected_revision != old(self)@.revision ==> (match result {
                Err(GraphTransactionError::RevisionConflict { expected, actual }) => expected
                    == transaction.expected_revision && actual == old(self)@.revision,
                _ => false,
            }),
            transaction.expected_revision == old(self)@.revision && transaction.operations@.len() == 0 ==> (
            result matches Err(GraphTransactionError::EmptyTransaction)),
            transaction.expected_revision == old(self)@.revision && transaction.operations@.len() > 0
                && old(self)@.revision.0 == u64::MAX ==> (result matches Err(
                GraphTransactionError::RevisionExhausted,
            )),
            transaction_effect(old(self)@, transaction.operations@) is None ==> (result is Err),
            transaction.expected_revision == old(self)@.revision && transaction.operations@.len() > 0
                && old(self)@.revision.0 < u64::MAX && transaction_effect(old(self)@, transaction.operations@) is Some
                && (forall|i: int| 0 <= i < transaction.operations@.len() ==> !(transaction.operations@[i] is Connect))
                ==> (result is Ok || result matches Err(GraphTransactionError::Validation(_))),
            match result {
                Ok(commit) => {
                    &&& transaction.expected_revision == old(self)@.revision
                    &&& old(self)@.revision.0 < u64::MAX
                    &&& transaction_effect(old(self)@, transaction.operations@) is Some
                    &&& final(self)@ == transaction_effect(old(self)@, transaction.operations@).unwrap().0.with_revision(
                        Revision((old(self)@.revision.0 + 1) as u64),
                    )
                    &&& commit.change_set.before == old(self)@.revision
                    &&& commit.change_set.after == Revision((old(self)@.revision.0 + 1) as u64)
                    &&& commit.change_set.changes@ == transaction_effect(
                        old(self)@,
                        transaction.operations@,
                    ).unwrap().1
                    &&& forall|k: int|
                        0 <= k < transaction.operations@.len() ==> #[trigger] connection_accepted_at(
                            &*old(self),
                            transaction.operations@,
                            k,
                        )
                    &&& graph_validated(
                        &*old(self),
                        transaction_effect(old(self)@, transaction.operations@).unwrap().0,
                        commit.change_set.before,
                        commit.change_set.after,
                        commit.change_set.changes@,
                        commit.diagnostics,
                    )
                    &&& !has_error(commit.diagnostics@)
                },
                Err(GraphTransactionError::Validation(diagnostics)) => {
                    &&& transaction.expected_revision == old(self)@.revision
                    &&& old(self)@.revision.0 < u64::MAX
                    &&& transaction_effect(old(self)@, transaction.operations@) is Some
                    &&& forall|k: int|
                        0 <= k < transaction.operations@.len() ==> #[trigger] connection_accepted_at(
                            &*old(self),
                            transaction.operations@,
                            k,
                        )
                    &&& graph_validated(
                        &*old(self),
                        transaction_effect(old(self)@, transaction.operations@).unwrap().0,
                        old(self)@.revision,
                        Revision((old(self)@.revision.0 + 1) as u64),
                        transaction_effect(old(self)@, transaction.operations@).unwrap().1,
                        diagnostics,
                    )
                    &&& has_error(diagnostics@)
                },
                Err(error) => transaction.expected_revision == old(self)@.revision && transaction.operations@.len()
                    > 0 && old(self)@.revision.0 < u64::MAX ==> exists|k: int, document: GraphDocument<D>|
                    #[trigger] refused_at(&*old(self), transaction.operations@, k, document, error),
            },
    {
        let current = self.revision();
        if transaction.expected_revision != current {
            return Err(GraphTransactionError::RevisionConflict {
                expected: transaction.expected_revision,
                actual: current,
            });
        }
        if transaction.operations.len() == 0 {
            return Err(GraphTransactionError::EmptyTransaction);
        }
        let after = match current.next() {
            Some(after) => after,
            None => return Err(GraphTransactionError::RevisionExhausted),
        };
        let ghost initial = self@;
        let ghost ops = transaction.operations@;
        let ghost mut states: Seq<GraphState<D>> = seq![self@];
        let mut undo: Vec<Undo<D>> = Vec::with_capacity(transaction.operations.len());
        let mut changes: Vec<GraphChange> = Vec::with_capacity(transaction.operations.len());
        let operations = transaction.operations;
        for operation in it: operations.into_iter()
            invariant
                self.wf(),
                self.same_frame(&*old(self)),
                initial == old(self)@,
                transaction.expected_revision == old(self)@.revision,
                transaction.operations@ == ops,
                ops.len() > 0,
                current == old(self)@.revision,
                after.0 == current.0 + 1,
                ops == operations@,
                it.seq() == ops,
                undo@.len() == it.index(),
                states.len() == it.index() + 1,
                states[0] == initial,
                states.last() == self@,
                forall|j: int| 0 <= j < undo@.len() ==> undo_reverts(#[trigger] undo@[j], states[j + 1], states[j]),
                transaction_effect(initial, ops.take(it.index())) == Some((self@, changes@)),
                forall|k: int| 0 <= k < it.index() ==> #[trigger] connection_accepted_at(&*old(self), ops, k),
        {
            let ghost index = it.index();
            let ghost before_state = self@;
            let ghost before_document: GraphDocument<D> = *self;
            let ghost before_changes = changes@;
            assert(ops.take(index + 1).drop_last() =~= ops.take(index));
            assert(ops.take(index + 1).last() == operation);
            match self.apply_operation(operation, &mut changes) {
                Ok(record) => {
                    let ghost prev_undo = undo@;
                    let ghost prev_states = states;
                    undo.push(record);
                    proof {
                        let b = before_changes.len() as int;
                        assert(changes@.take(b) == before_changes);
                        assert forall|x: int| 0 <= x < b implies changes@[x] == before_changes[x] by {
                            assert(changes@.take(b)[x] == changes@[x]);
                        }
                        assert(changes@ =~= before_changes + changes@.skip(b));
                        assert(transaction_effect(initial, ops.take(index + 1)) == Some((self@, changes@)));
                        if let GraphOperation::Connect { edge } = ops[index as int] {
                            assert(connection_ruled(&before_document, edge, Ok(())));
                        }
                        assert(connection_accepted_at(&*old(self), ops, index as int));
                        states = states.push(self@);
                        assert forall|j: int| 0 <= j < undo@.len() implies undo_reverts(
                            #[trigger] undo@[j],
                            states[j + 1],
                            states[j],
                        ) by {
                            if j < undo@.len() - 1 {
                                assert(undo@[j] == prev_undo[j]);
                                assert(states[j + 1] == prev_states[j + 1]);
                                assert(states[j] == prev_states[j]);
                            }
                        }
                    }
                },
                Err(error) => {
                    proof {
                        if transaction_effect(initial, ops) is Some {
                            lemma_effect_prefix(initial, ops, index + 1);
                            assert(ops.take(index + 1).drop_last() =~= ops.take(index));
                        }
                        assert(refused_at(&*old(self), ops, index as int, before_document, error));
                    }
                    self.rollback(undo, Ghost(states));
                    return Err(error);
                },
            }
        }
        assert(ops.take(ops.len() as int) =~= ops);
        let change_set = GraphChangeSet { before: current, after, changes };
        let diagnostics = self.domain().validate_graph(self, &change_set);
        proof {
            assert(call_ensures(D::validate_graph, (&self.spec_domain(), &*self, &change_set), diagnostics));
            assert(graph_validated(&*old(self), self@, current, after, change_set.changes@, diagnostics));
        }
        let mut fatal = false;
        let mut i: usize = 0;
        while i < diagnostics.len()
            invariant
                i <= diagnostics@.len(),
                fatal == has_error(diagnostics@.take(i as int)),
            decreases diagnostics@.len() - i,
        {
            proof {
                assert(diagnostics@.take(i + 1).drop_last() =~= diagnostics@.take(i as int));
                if has_error(diagnostics@.take(i as int)) {
                    let j = choose|j: int| 0 <= j < i && #[trigger] diagnostics@.take(i as int)[j].severity == DiagnosticSeverity::Error;
                    assert(diagnostics@.take(i + 1)[j] == diagnostics@.take(i as int)[j]);
                }
                if has_error(diagnostics@.take(i + 1)) {
                    let j = choose|j: int| 0 <= j < i + 1 && #[trigger] diagnostics@.take(i + 1)[j].severity == DiagnosticSeverity::Error;
                    if j < i {
                        assert(diagnostics@.take(i as int)[j] == diagnostics@.take(i + 1)[j]);
                    }
                }
            }
            if let DiagnosticSeverity::Error = diagnostics[i].severity {
                assert(diagnostics@.take(i + 1)[i as int] == diagnostics@[i as int]);
                fatal = true;
            }
            i = i + 1;
        }
        assert(diagnostics@.take(diagnostics@.len() as int) =~= diagnostics@);
        if fatal {
            self.rollback(undo, Ghost(states));
            return Err(GraphTransactionError::Validation(diagnostics));
        }
        self.set_revision(after);
        Ok(GraphCommit { change_set, diagnostics })
    }

    /// Applies one operation. On success the change list grows by the
    /// operation's changes and the returned record undoes it; on failure
    /// nothing changed.
    fn apply_operation(&mut self, operation: GraphOperation<D>, changes: &mut Vec<GraphChange>) -> (result:
        Result<Undo<D>, GraphTransactionError>)
        requires
            old(self).wf(),
        ensures
            final(self).wf(),
            final(self).same_frame(&*old(self)),
            match result {
                Ok(record) => {
                    &&& operation_effect(old(self)@, operation) == Some((final(self)@, final(changes)@.skip(old(changes)@.len() as int)))
                    &&& final(changes)@.len() >= old(changes)@.len()
                    &&& final(changes)@.take(old(changes)@.len() as int) == old(changes)@
                    &&& undo_reverts(record, final(self)@, old(self)@)
                },
                Err(error) => {
                    &&& final(self)@ == old(self)@
                    &&& final(changes)@ == old(changes)@
                    &&& operation_refused(&*old(self), operation, error)
                },
            },
            operation_effect(old(self)@, operation) is None ==> (result is Err),
            !(operation is Connect) && operation_effect(old(self)@, operation) is Some ==> (result is Ok),
            operation matches GraphOperation::Connect { edge } ==> (result is Ok ==> connection_ruled(
                &*old(self),
                edge,
                Ok(()),
            )),
    {
        let ghost pre = self@;
        let ghost before = changes@;
        proof {
            self.lemma_wf_content();
        }
        match operation {
            GraphOperation::InsertNode { node, presentation } => {
                let id = node.id;
                if self.node(id).is_some() {
                    return Err(GraphTransactionError::DuplicateNode(id));
                }
                proof {
                    lemma_insert_then_remove(pre, node, presentation);
                }
                self.insert_node_internal(node, presentation);
                changes.push(GraphChange::NodeInserted(id));
                assert(changes@.skip(before.len() as int) =~= seq![GraphChange::NodeInserted(id)]);
                assert(changes@.take(before.len() as int) =~= before);
                Ok(Undo::RemoveNode(id.0.0))
            },
            GraphOperation::RemoveNode { node } => {
                let removed = self.remove_node_internal(node.0.0);
                let removed = match removed {
                    Some(removed) => removed,
                    None => return Err(GraphTransactionError::MissingNode(node)),
                };
                let RemovedNode { node: record, presentation, edges } = removed;
                let ghost keys = sorted_keys(incident_of(pre.edges, node.0.0));
                let mut i: usize = 0;
                while i < edges.len()
                    invariant
                        i <= edges@.len(),
                        edges@.len() == keys.len(),
                        forall|k: int| 0 <= k < edges@.len() ==> #[trigger] edges@[k] == pre.edges[keys[k]],
                        changes@.take(before.len() as int) == before,
                        changes@.len() == before.len() + i,
                        forall|k: int|
                            0 <= k < i ==> #[trigger] changes@[before.len() + k] == GraphChange::EdgeRemoved(
                                pre.edges[keys[k]].id,
                            ),
                    decreases edges@.len() - i,
                {
                    changes.push(GraphChange::EdgeRemoved(edges[i].id));
                    assert(changes@.take(before.len() as int) =~= before);
                    i = i + 1;
                }
                changes.push(GraphChange::NodeRemoved(node));
                assert(changes@.take(before.len() as int) =~= before);
                assert forall|k: int| 0 <= k < keys.len() implies #[trigger] changes@.skip(before.len() as int)[k]
                    == GraphChange::EdgeRemoved(pre.edges[keys[k]].id) by {
                    assert(changes@[before.len() + k] == GraphChange::EdgeRemoved(pre.edges[keys[k]].id));
                }
                assert(changes@.skip(before.len() as int) =~= keys.map_values(
                    |e: u128| GraphChange::EdgeRemoved(pre.edges[e].id),
                ) + seq![GraphChange::NodeRemoved(node)]);
                Ok(Undo::RestoreNode { node: record, presentation, edges })
            },
            GraphOperation::ReplaceNode { node, data } => {
                let previous = self.replace_node_data(node.0.0, data);
                match previous {
                    Some(previous) => {
                        changes.push(GraphChange::NodeReplaced(node));
                        assert(changes@.skip(before.len() as int) =~= seq![GraphChange::NodeReplaced(node)]);
                        assert(changes@.take(before.len() as int) =~= before);
                        assert(self@.with_node_data(node.0.0, previous) =~= pre);
                        Ok(Undo::RestoreNodeData { node: node.0.0, data: previous })
                    },
                    None => Err(GraphTransactionError::MissingNode(node)),
                }
            },
            GraphOperation::Connect { edge } => {
                if self.edge(edge.id).is_some() {
                    return Err(GraphTransactionError::DuplicateEdge(edge.id));
                }
                if !self.has_port(edge.from, PortDirection::Output) {
                    return Err(GraphTransactionError::MissingPort(edge.from));
                }
                if !self.has_port(edge.to, PortDirection::Input) {
                    return Err(GraphTransactionError::MissingPort(edge.to));
                }
                let from_node = match self.node(edge.from.node) {
                    Some(node) => Some(&node.data),
                    None => None,
                };
                let to_node = match self.node(edge.to.node) {
                    Some(node) => Some(&node.data),
                    None => None,
                };
                let verdict = self.domain().validate_connection(
                    self,
                    from_node,
                    to_node,
                    edge.from,
                    edge.to,
                    &edge.data,
                );
                assert(connection_ruled(&*self, edge, verdict));
                match verdict {
                    Ok(accepted) => {
                        assert(verdict == Ok::<(), GraphDiagnostic>(accepted));
                    },
                    Err(diagnostic) => {
                        return Err(GraphTransactionError::Connection(diagnostic));
                    },
                }
                let id = edge.id;
                self.insert_edge_internal(edge);
                changes.push(GraphChange::EdgeInserted(id));
                assert(changes@.skip(before.len() as int) =~= seq![GraphChange::EdgeInserted(id)]);
                assert(changes@.take(before.len() as int) =~= before);
                assert(self@.without_edge(id.0.0) =~= pre);
                Ok(Undo::RemoveEdge(id.0.0))
            },
            GraphOperation::Disconnect { edge } => {
                let record = match self.remove_edge_internal(edge.0.0) {
                    Some(record) => record,
                    None => return Err(GraphTransactionError::MissingEdge(edge)),
                };
                changes.push(GraphChange::EdgeRemoved(edge));
                assert(changes@.skip(before.len() as int) =~= seq![GraphChange::EdgeRemoved(edge)]);
                assert(changes@.take(before.len() as int) =~= before);
                assert(self@.with_edge(record) =~= pre);
                Ok(Undo::RestoreEdge(record))
            },
            GraphOperation::SetNodePresentation { node, presentation } => {
                if self.node(node).is_none() {
                    return Err(GraphTransactionError::MissingNode(node));
                }
                let previous = self.set_node_presentation(node.0.0, Some(presentation));
                changes.push(GraphChange::NodePresentationChanged(node));
                assert(changes@.skip(before.len() as int) =~= seq![GraphChange::NodePresentationChanged(node)]);
                assert(changes@.take(before.len() as int) =~= before);
                assert(self@.with_node_presentation(node.0.0, previous) =~= pre);
                Ok(Undo::RestorePresentation { node: node.0.0, presentation: previous })
            },
            GraphOperation::UpsertComment(comment) => {
                let id = comment.id;
                let previous = self.set_comment(id.0, Some(comment));
                changes.push(GraphChange::CommentChanged(id));
                assert(changes@.skip(before.len() as int) =~= seq![GraphChange::CommentChanged(id)]);
                assert(changes@.take(before.len() as int) =~= before);
                assert(self@.with_comment(id.0, previous) =~= pre);
                Ok(Undo::RestoreComment { id: id.0, comment: previous })
            },
            GraphOperation::RemoveComment(id) => {
                let previous = self.set_comment(id.0, None);
                match previous {
                    Some(_) => {
                        changes.push(GraphChange::CommentRemoved(id));
                        assert(changes@.skip(before.len() as int) =~= seq![GraphChange::CommentRemoved(id)]);
                        assert(changes@.take(before.len() as int) =~= before);
                        assert(self@.with_comment(id.0, previous) =~= pre);
                        Ok(Undo::RestoreComment { id: id.0, comment: previous })
                    },
                    None => {
                        assert(self@ =~= pre);
                        Err(GraphTransactionError::MissingComment(id))
                    },
                }
            },
            GraphOperation::UpsertGroup(group) => {
                match self.first_missing_group_node(&group) {
                    Some(missing) => {
                        return Err(GraphTransactionError::MissingNode(GraphNodeId(EntityId(missing))));
                    },
                    None => {},
                }
                let id = group.id;
                let previous = self.set_group(id.0, Some(group));
                changes.push(GraphChange::GroupChanged(id));
                assert(changes@.skip(before.len() as int) =~= seq![GraphChange::GroupChanged(id)]);
                assert(changes@.take(before.len() as int) =~= before);
                assert(self@.with_group(id.0, previous) =~= pre);
                Ok(Undo::RestoreGroup { id: id.0, group: previous })
            },
            GraphOperation::RemoveGroup(id) => {
                let previous = self.set_group(id.0, None);
                match previous {
                    Some(_) => {
                        changes.push(GraphChange::GroupRemoved(id));
                        assert(changes@.skip(before.len() as int) =~= seq![GraphChange::GroupRemoved(id)]);
                        assert(changes@.take(before.len() as int) =~= before);
                        assert(self@.with_group(id.0, previous) =~= pre);
                        Ok(Undo::RestoreGroup { id: id.0, group: previous })
                    },
                    None => {
                        assert(self@ =~= pre);
                        Err(GraphTransactionError::MissingGroup(id))
                    },
                }
            },
            GraphOperation::UpsertBookmark(bookmark) => {
                let id = bookmark.id;
                let previous = self.set_bookmark(id.0, Some(bookmark));
                changes.push(GraphChange::BookmarkChanged(id));
                assert(changes@.skip(before.len() as int) =~= seq![GraphChange::BookmarkChanged(id)]);
                assert(changes@.take(before.len() as int) =~= before);
                assert(self@.with_bookmark(id.0, previous) =~= pre);
                Ok(Undo::RestoreBookmark { id: id.0, bookmark: previous })
            },
            GraphOperation::RemoveBookmark(id) => {
                let previous = self.set_bookmark(id.0, None);
                match previous {
                    Some(_) => {
                        changes.push(GraphChange::BookmarkRemoved(id));
                        assert(changes@.skip(before.len() as int) =~= seq![GraphChange::BookmarkRemoved(id)]);
                        assert(changes@.take(before.len() as int) =~= before);
                        assert(self@.with_bookmark(id.0, previous) =~= pre);
                        Ok(Undo::RestoreBookmark { id: id.0, bookmark: previous })
                    },
                    None => {
                        assert(self@ =~= pre);
                        Err(GraphTransactionError::MissingBookmark(id))
                    },
                }
            },
        }
    }

    /// The smallest node of `group` that the document lacks, if any.
    fn first_missing_group_node(&self, group: &GraphGroup) -> (missing: Option<u128>)
        ensures
            match missing {
                Some(n) => {
                    &&& group.nodes@.contains(n)
                    &&& !self@.nodes.contains_key(n)
                    &&& forall|m: u128| #[trigger] group.nodes@.contains(m) && m < n ==> self@.nodes.contains_key(m)
                },
                None => forall|n: u128| #[trigger] group.nodes@.contains(n) ==> self@.nodes.contains_key(n),
            },
    {
        let members = super::keys::sorted_vec(&group.nodes);
        let mut i: usize = 0;
        while i < members.len()
            invariant
                i <= members@.len(),
                members@.to_set() == group.nodes@,
                strictly_increasing(members@),
                forall|k: int| 0 <= k < i ==> self@.nodes.contains_key(#[trigger] members@[k]),
            decreases members@.len() - i,
        {
            let n = members[i];
            if self.node(GraphNodeId(EntityId(n))).is_none() {
                assert(members@.contains(n));
                assert forall|m: u128| #[trigger] group.nodes@.contains(m) && m < n implies self@.nodes.contains_key(
                    m,
                ) by {
                    assert(members@.to_set().contains(m));
                    let j = choose|j: int| 0 <= j < members@.len() && members@[j] == m;
                    if j >= i {
                        if j > i {
                            assert(members@[i as int] < members@[j]);
                        }
                    }
                }
                return Some(n);
            }
            i = i + 1;
        }
        assert forall|n: u128| #[trigger] group.nodes@.contains(n) implies self@.nodes.contains_key(n) by {
            assert(members@.to_set().contains(n));
            assert(members@.contains(n));
        }
        None
    }

    /// Undoes, newest first, every record of `undo`.
    fn rollback(&mut self, undo: Vec<Undo<D>>, Ghost(states): Ghost<Seq<GraphState<D>>>)
        requires
            old(self).wf(),
            states.len() == undo@.len() + 1,
            states.last() == old(self)@,
            forall|j: int| 0 <= j < undo@.len() ==> undo_reverts(#[trigger] undo@[j], states[j + 1], states[j]),
        ensures
            final(self).wf(),
            final(self).same_frame(&*old(self)),
            final(self)@ == states[0],
    {
        let mut undo = undo;
        while undo.len() > 0
            invariant
                self.wf(),
                self.same_frame(&*old(self)),
                states.len() >= undo@.len() + 1,
                self@ == states[undo@.len() as int],
                forall|j: int| 0 <= j < undo@.len() ==> undo_reverts(#[trigger] undo@[j], states[j + 1], states[j]),
            decreases undo@.len(),
        {
            let ghost n = undo@.len() as int;
            let record = match undo.pop() {
                Some(record) => record,
                None => {
                    assert(false);
                    return ;
                },
            };
            assert(undo_reverts(record, states[n], states[n - 1]));
            self.undo_one(record, Ghost(states[n - 1]));
        }
    }

    /// Applies one undo record that turns the current state back into `pre`.
    fn undo_one(&mut self, record: Undo<D>, Ghost(pre): Ghost<GraphState<D>>)
        requires
            old(self).wf(),
            undo_reverts(record, old(self)@, pre),
        ensures
            final(self).wf(),
            final(self).same_frame(&*old(self)),
            final(self)@ == pre,
    {
        let ghost post = self@;
        proof {
            self.lemma_wf_content();
        }
        match record {
            Undo::RemoveNode(node) => {
                self.remove_node_internal(node);
            },
            Undo::RestoreNode { node, presentation, edges } => {
                let ghost k = node.id.key();
                let ghost keys = sorted_keys(incident_of(pre.edges, k));
                proof {
                    assert(pre.nodes.remove(k).insert(k, node) =~= pre.nodes);
                }
                self.insert_node_internal(node, presentation);
                let mut edges = edges;
                let ghost all = edges@;
                proof {
                    assert(pre.node_presentation.remove(k) =~= post.node_presentation);
                    match presentation {
                        Some(p) => {
                            assert(post.node_presentation.insert(k, p) =~= pre.node_presentation);
                        },
                        None => {
                            assert(post.node_presentation =~= pre.node_presentation);
                        },
                    }
                    assert(keys.take(all.len() as int) =~= keys);
                }
                while edges.len() > 0
                    invariant
                        self.wf(),
                        self.same_frame(&*old(self)),
                        state_wf(pre),
                        all.len() == keys.len(),
                        keys.to_set() == incident_of(pre.edges, k),
                        keys.no_duplicates(),
                        edges@ == all.take(edges@.len() as int),
                        edges@.len() <= all.len(),
                        forall|i: int| 0 <= i < all.len() ==> #[trigger] all[i] == pre.edges[keys[i]],
                        self@ == (GraphState {
                            edges: pre.edges.remove_keys(keys.take(edges@.len() as int).to_set()),
                            ..pre
                        }),
                    decreases edges@.len(),
                {
                    let ghost r = edges@.len() as int;
                    let edge = match edges.pop() {
                        Some(edge) => edge,
                        None => {
                            assert(false);
                            return ;
                        },
                    };
                    proof {
                        assert(edge == all[r - 1]);
                        assert(keys.to_set().contains(keys[r - 1])) by {
                            assert(keys.contains(keys[r - 1]));
                        }
                        assert(keys.take(r).to_set().contains(keys[r - 1])) by {
                            assert(keys.take(r)[r - 1] == keys[r - 1]);
                            assert(keys.take(r).contains(keys[r - 1]));
                        }
                        assert(pre.edges.contains_key(keys[r - 1]));
                        assert(keys.take(r) =~= keys.take(r - 1).push(keys[r - 1]));
                        keys.take(r - 1).lemma_push_to_set_commute(keys[r - 1]);
                        assert(!keys.take(r - 1).contains(keys[r - 1])) by {
                            if keys.take(r - 1).contains(keys[r - 1]) {
                                let j = choose|j: int| 0 <= j < r - 1 && #[trigger] keys.take(r - 1)[j] == keys[r - 1];
                                assert(keys[j] == keys[r - 1]);
                            }
                        }
                        assert(pre.edges.remove_keys(keys.take(r - 1).to_set()) =~= pre.edges.remove_keys(
                            keys.take(r).to_set(),
                        ).insert(keys[r - 1], edge));
                    }
                    self.insert_edge_internal(edge);
                    assert(edges@ =~= all.take(edges@.len() as int));
                }
                assert(keys.take(0) =~= Seq::<u128>::empty());
                assert(pre.edges.remove_keys(Set::<u128>::empty()) =~= pre.edges);
                assert(self@ =~= pre);
            },
            Undo::RestoreNodeData { node, data } => {
                self.replace_node_data(node, data);
            },
            Undo::RemoveEdge(edge) => {
                self.remove_edge_internal(edge);
            },
            Undo::RestoreEdge(edge) => {
                assert(pre.edges.contains_key(edge.id.key()));
                self.insert_edge_internal(edge);
            },
            Undo::RestorePresentation { node, presentation } => {
                proof {
                    if presentation is Some {
                        assert(pre.node_presentation.contains_key(node));
                    }
                }
                self.set_node_presentation(node, presentation);
            },
            Undo::RestoreComment { id, comment } => {
                self.set_comment(id, comment);
            },
            Undo::RestoreGroup { id, group } => {
                self.set_group(id, group);
            },
            Undo::RestoreBookmark { id, bookmark } => {
                self.set_bookmark(id, bookmark);
            },
        }
    }
}

} // verus!
