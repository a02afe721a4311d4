//! Versioned project files, immutable save snapshots and crash-safe recovery
//! planning.
//!
//! The file system and JSON work happens at the application's edge; this
//! module decides: which configurations, headers and sizes are acceptable,
//! which migration runs next, how deep and how large a JSON document may be,
//! and how the recovery journal of backups evolves on save and is consulted
//! on load.

use std::collections::BTreeMap;
use std::sync::Arc;
use vstd::prelude::*;
use crate::model::Revision;
use crate::text::strings_equal;

verus! {

broadcast use {vstd::std_specs::btree::group_btree_axioms, vstd::laws_cmp::group_laws_cmp};

#[derive(Clone, Copy, Debug, PartialEq, Eq, Structural)]
pub struct PersistenceLimits {
    pub maximum_file_bytes: u64,
    pub maximum_json_values: usize,
    pub maximum_json_depth: usize,
}

impl PersistenceLimits {
    /// 256 MiB files of at most two million JSON values nested 128 deep.
    pub fn default_limits() -> (limits: Self)
        ensures
            limits.maximum_file_bytes == 256 * 1_048_576,
            limits.maximum_json_values == 2_000_000,
            limits.maximum_json_depth == 128,
    {
        PersistenceLimits {
            maximum_file_bytes: 268_435_456,
            maximum_json_values: 2_000_000,
            maximum_json_depth: 128,
        }
    }
}

impl Default for PersistenceLimits {
    fn default() -> (limits: Self)
        ensures
            limits.maximum_file_bytes == 256 * 1_048_576,
            limits.maximum_json_values == 2_000_000,
            limits.maximum_json_depth == 128,
    {
        PersistenceLimits::default_limits()
    }
}

/// An immutable document at a revision, shared without copying.
#[derive(Clone)]
pub struct SaveSnapshot<T> {
    pub revision: Revision,
    document: Arc<T>,
}

impl<T> SaveSnapshot<T> {
    pub closed spec fn spec_document(&self) -> T {
        *self.document
    }

    pub closed spec fn spec_revision(&self) -> Revision {
        self.revision
    }

    pub fn new(revision: Revision, document: T) -> (snapshot: Self)
        ensures
            snapshot.spec_revision() == revision,
            snapshot.spec_document() == document,
    {
        SaveSnapshot { revision, document: Arc::new(document) }
    }

    pub fn from_arc(revision: Revision, document: Arc<T>) -> (snapshot: Self)
        ensures
            snapshot.spec_revision() == revision,
            snapshot.spec_document() == *document,
    {
        SaveSnapshot { revision, document }
    }

    pub fn document(&self) -> (document: &T)
        ensures
            *document == self.spec_document(),
    {
        &*self.document
    }

    /// The revision of the snapshot, the public field `revision`, for
    /// verified callers, which cannot read a field of a type with a private
    /// field.
    pub fn revision(&self) -> (revision: Revision)
        ensures
            revision == self.spec_revision(),
    {
        self.revision
    }
}

#[derive(Clone, Debug)]
pub enum PersistenceError {
    InvalidCodecConfiguration,
    InvalidMigrationRegistry,
    WrongApplication { expected: String, actual: String },
    UnsupportedSchema(u32),
    MissingMigration { from: u32 },
    Migration(String),
    InvalidDocument(String),
    JsonValueLimit,
    JsonDepthLimit,
    FileTooLarge { bytes: u64, maximum: u64 },
    NoRecoverableSnapshot,
    /// An input/output failure, described by the operating system's message.
    Io(String),
    /// A JSON syntax or shape failure, described by the parser's message.
    Json(String),
}

/// Migrations keyed by the schema version they upgrade from.
pub struct MigrationRegistry<M> {
    migrations: BTreeMap<u32, M>,
}

impl<M> MigrationRegistry<M> {
    pub closed spec fn spec_migrations(&self) -> Map<u32, M> {
        self.migrations@
    }

    pub fn new() -> (registry: Self)
        ensures
            registry.spec_migrations() == Map::<u32, M>::empty(),
    {
        MigrationRegistry { migrations: BTreeMap::new() }
    }

    /// Registers the migration from schema `from_version` to the next one.
    /// Version zero and second registrations for one version are refused;
    /// a refused second registration replaces the first, as the map insert
    /// that detects it does.
    pub fn register(&mut self, from_version: u32, migration: M) -> (result: Result<(), PersistenceError>)
        ensures
            from_version == 0 ==> final(self).spec_migrations() == old(self).spec_migrations() && (result matches Err(
                PersistenceError::InvalidMigrationRegistry,
            )),
            from_version != 0 ==> final(self).spec_migrations() == old(self).spec_migrations().insert(
                from_version,
                migration,
            ),
            from_version != 0 ==> ((result is Ok) <==> !old(self).spec_migrations().contains_key(from_version)),
            from_version != 0 && old(self).spec_migrations().contains_key(from_version) ==> (result matches Err(
                PersistenceError::InvalidMigrationRegistry,
            )),
    {
        if from_version == 0 {
            return Err(PersistenceError::InvalidMigrationRegistry);
        }
        match self.migrations.insert(from_version, migration) {
            Some(_) => Err(PersistenceError::InvalidMigrationRegistry),
            None => Ok(()),
        }
    }

    /// The migration to run from `version` towards `current`: `None` once
    /// `version` reached `current`.
    pub fn next_migration(&self, version: u32, current: u32) -> (step: Result<Option<&M>, PersistenceError>)
        ensures
            version >= current ==> (step matches Ok(None)),
            version < current && self.spec_migrations().contains_key(version) ==> (match step {
                Ok(Some(m)) => *m == self.spec_migrations()[version],
                _ => false,
            }),
            version < current && !self.spec_migrations().contains_key(version) ==> (match step {
                Err(PersistenceError::MissingMigration { from }) => from == version,
                _ => false,
            }),
    {
        if version >= current {
            return Ok(None);
        }
        match self.migrations.get(&version) {
            Some(migration) => Ok(Some(migration)),
            None => Err(PersistenceError::MissingMigration { from: version }),
        }
    }
}

/// Header of a decoded project file.
pub struct ProjectHeader {
    pub schema_version: u32,
    pub application_id: String,
    pub application_version: String,
    pub revision: Revision,
}

/// Application identity, schema and limits of one kind of project file.
pub struct ProjectCodec {
    application_id: String,
    application_version: String,
    current_schema: u32,
    limits: PersistenceLimits,
}

impl ProjectCodec {
    pub closed spec fn spec_application_id(&self) -> Seq<char> {
        self.application_id@
    }

    pub closed spec fn spec_current_schema(&self) -> u32 {
        self.current_schema
    }

    pub closed spec fn spec_limits(&self) -> PersistenceLimits {
        self.limits
    }

    pub fn new(application_id: String, application_version: String, current_schema: u32, limits: PersistenceLimits) -> (result:
        Result<Self, PersistenceError>)
        ensures
            (application_id@.len() == 0 || application_version@.len() == 0 || current_schema == 0) <==> (result is Err),
            match result {
                Ok(codec) => codec.spec_application_id() == application_id@ && codec.spec_current_schema()
                    == current_schema && codec.spec_limits() == limits,
                Err(e) => e is InvalidCodecConfiguration,
            },
    {
        if application_id.as_str().unicode_len() == 0 || application_version.as_str().unicode_len() == 0
            || current_schema == 0 {
            return Err(PersistenceError::InvalidCodecConfiguration);
        }
        Ok(ProjectCodec { application_id, application_version, current_schema, limits })
    }

    pub fn limits(&self) -> (limits: PersistenceLimits)
        ensures
            limits == self.spec_limits(),
    {
        self.limits
    }

    pub fn current_schema(&self) -> (schema: u32)
        ensures
            schema == self.spec_current_schema(),
    {
        self.current_schema
    }

    /// The header an encoded snapshot at `revision` carries.
    pub fn header_for(&self, revision: Revision) -> (header: ProjectHeader)
        ensures
            header.schema_version == self.spec_current_schema(),
            header.application_id@ == self.spec_application_id(),
            header.revision == revision,
    {
        ProjectHeader {
            schema_version: self.current_schema,
            application_id: self.application_id.clone(),
            application_version: self.application_version.clone(),
            revision,
        }
    }

    /// Refuses files larger than the limit.
    pub fn validate_size(&self, bytes: u64) -> (result: Result<(), PersistenceError>)
        ensures
            bytes <= self.spec_limits().maximum_file_bytes <==> (result is Ok),
            match result {
                Err(PersistenceError::FileTooLarge { bytes: b, maximum }) => b == bytes && maximum
                    == self.spec_limits().maximum_file_bytes,
                Err(_) => false,
                Ok(_) => true,
            },
    {
        if bytes > self.limits.maximum_file_bytes {
            Err(PersistenceError::FileTooLarge { bytes, maximum: self.limits.maximum_file_bytes })
        } else {
            Ok(())
        }
    }

    /// Accepts a decoded header of this application with a schema from one
    /// up to the current one.
    pub fn check_header(&self, header: &ProjectHeader) -> (result: Result<(), PersistenceError>)
        ensures
            header.application_id@ != self.spec_application_id() ==> (match result {
                Err(PersistenceError::WrongApplication { expected, actual }) => expected@ == self.spec_application_id()
                    && actual@ == header.application_id@,
                _ => false,
            }),
            header.application_id@ == self.spec_application_id() ==> ((result is Ok) <==> (1 <= header.schema_version
                <= self.spec_current_schema())),
            header.application_id@ == self.spec_application_id() && !(1 <= header.schema_version
                <= self.spec_current_schema()) ==> (match result {
                Err(PersistenceError::UnsupportedSchema(v)) => v == header.schema_version,
                _ => false,
            }),
    {
        if !strings_equal(header.application_id.as_str(), self.application_id.as_str()) {
            return Err(PersistenceError::WrongApplication {
                expected: self.application_id.clone(),
                actual: header.application_id.clone(),
            });
        }
        if header.schema_version > self.current_schema || header.schema_version == 0 {
            return Err(PersistenceError::UnsupportedSchema(header.schema_version));
        }
        Ok(())
    }
}

/// The shape of a JSON value: how many values it holds and how they nest.
/// Object members appear in the order the object lists them.
pub enum JsonShape {
    Scalar,
    Array(Vec<JsonShape>),
    Object(Vec<JsonShape>),
}

/// Number of values in a list of shapes, each counted with its nested values.
pub open spec fn shapes_size(shapes: Seq<JsonShape>) -> nat
    decreases shapes,
{
    if shapes.len() == 0 {
        0
    } else {
        shapes_size(shapes.drop_last()) + shape_size(shapes.last())
    }
}

pub open spec fn shape_size(shape: JsonShape) -> nat
    decreases shape,
{
    match shape {
        JsonShape::Scalar => 1,
        JsonShape::Array(items) => 1 + shapes_size(items@),
        JsonShape::Object(items) => 1 + shapes_size(items@),
    }
}

/// The depths of the values of `shape`, rooted at `depth`, in the order a
/// stack-driven walk meets them: a value, then its members from the last to
/// the first, each with everything nested in it.
pub open spec fn visit_depths(shape: JsonShape, depth: nat) -> Seq<nat>
    decreases shape, 0nat,
{
    match shape {
        JsonShape::Scalar => seq![depth],
        JsonShape::Array(items) => seq![depth] + members_depths(items@, depth + 1),
        JsonShape::Object(items) => seq![depth] + members_depths(items@, depth + 1),
    }
}

/// The depths met walking `items`, all rooted at `depth`, last item first.
pub open spec fn members_depths(items: Seq<JsonShape>, depth: nat) -> Seq<nat>
    decreases items, items.len(),
{
    if items.len() == 0 {
        Seq::empty()
    } else {
        visit_depths(items[items.len() - 1], depth) + members_depths(items.subrange(0, items.len() - 1), depth)
    }
}

/// The first limit that walking values of depths `depths` from `index` on
/// breaks: the count of values checked first, then the depth.
pub open spec fn shape_check(depths: Seq<nat>, index: int, limits: PersistenceLimits) -> Result<(), PersistenceError>
    decreases depths.len() - index,
{
    if index < 0 || index >= depths.len() {
        Ok(())
    } else if index + 1 > limits.maximum_json_values {
        Err(PersistenceError::JsonValueLimit)
    } else if depths[index] > limits.maximum_json_depth {
        Err(PersistenceError::JsonDepthLimit)
    } else {
        shape_check(depths, index + 1, limits)
    }
}

/// The depths still to be met from a walk's stack, top entry first.
pub open spec fn stack_depths(stack: Seq<(JsonShape, nat)>) -> Seq<nat>
    decreases stack.len(),
{
    if stack.len() == 0 {
        Seq::empty()
    } else {
        visit_depths(stack.last().0, stack.last().1) + stack_depths(stack.drop_last())
    }
}

pub open spec fn entries_view(stack: Seq<(&JsonShape, usize)>) -> Seq<(JsonShape, nat)> {
    stack.map_values(|entry: (&JsonShape, usize)| (*entry.0, entry.1 as nat))
}

proof fn lemma_visit_length(shape: JsonShape, depth: nat)
    ensures
        visit_depths(shape, depth).len() == shape_size(shape),
        forall|i: int| 0 <= i < visit_depths(shape, depth).len() ==> visit_depths(shape, depth)[i] >= depth,
    decreases shape, 0nat,
{
    match shape {
        JsonShape::Scalar => {},
        JsonShape::Array(items) => {
            lemma_members_length(items@, depth + 1);
        },
        JsonShape::Object(items) => {
            lemma_members_length(items@, depth + 1);
        },
    }
}

proof fn lemma_members_length(items: Seq<JsonShape>, depth: nat)
    ensures
        members_depths(items, depth).len() == shapes_size(items),
        forall|i: int| 0 <= i < members_depths(items, depth).len() ==> members_depths(items, depth)[i] >= depth,
    decreases items, items.len(),
{
    if items.len() > 0 {
        lemma_visit_length(items[items.len() - 1], depth);
        lemma_members_length(items.subrange(0, items.len() - 1), depth);
        assert(items.drop_last() == items.subrange(0, items.len() - 1));
    }
}

/// Pushing the members of a value, first to last, puts their walk on top.
proof fn lemma_push_members(stack: Seq<(JsonShape, nat)>, items: Seq<JsonShape>, depth: nat, count: int)
    requires
        0 <= count <= items.len(),
    ensures
        stack_depths(stack + items.subrange(0, count).map_values(|item: JsonShape| (item, depth))) == members_depths(
            items.subrange(0, count),
            depth,
        ) + stack_depths(stack),
    decreases count,
{
    let pushed = items.subrange(0, count).map_values(|item: JsonShape| (item, depth));
    if count == 0 {
        assert(stack + pushed =~= stack);
        assert(members_depths(items.subrange(0, 0), depth) =~= Seq::<nat>::empty());
        assert(Seq::<nat>::empty() + stack_depths(stack) =~= stack_depths(stack));
    } else {
        lemma_push_members(stack, items, depth, count - 1);
        let shorter = items.subrange(0, count - 1).map_values(|item: JsonShape| (item, depth));
        assert((stack + pushed).drop_last() =~= stack + shorter);
        assert((stack + pushed).last() == (items[count - 1], depth));
        assert(items.subrange(0, count).subrange(0, count - 1) =~= items.subrange(0, count - 1));
        assert(members_depths(items.subrange(0, count), depth) == visit_depths(items[count - 1], depth)
            + members_depths(items.subrange(0, count - 1), depth));
        assert(visit_depths(items[count - 1], depth) + (members_depths(items.subrange(0, count - 1), depth)
            + stack_depths(stack)) =~= (visit_depths(items[count - 1], depth) + members_depths(
            items.subrange(0, count - 1),
            depth,
        )) + stack_depths(stack));
    }
}

/// How many levels `shape` spans: one for a scalar or an empty container,
/// one more than its deepest member for a container.
pub open spec fn nesting(shape: JsonShape) -> nat
    decreases shape,
{
    match shape {
        JsonShape::Scalar => 1,
        JsonShape::Array(items) => 1 + deepest(items@),
        JsonShape::Object(items) => 1 + deepest(items@),
    }
}

/// The largest nesting among `shapes`; zero for none.
pub open spec fn deepest(shapes: Seq<JsonShape>) -> nat
    decreases shapes,
{
    if shapes.len() == 0 {
        0
    } else {
        let rest = deepest(shapes.drop_last());
        let last = nesting(shapes.last());
        if last > rest {
            last
        } else {
            rest
        }
    }
}

/// The values of `shape` walked from `depth` lie at most `nesting - 1`
/// levels below it, and one of them lies exactly that deep.
proof fn lemma_visit_reaches_nesting(shape: JsonShape, depth: nat)
    ensures
        nesting(shape) >= 1,
        forall|i: int|
            0 <= i < visit_depths(shape, depth).len() ==> #[trigger] visit_depths(shape, depth)[i] <= depth + nesting(
                shape,
            ) - 1,
        exists|i: int|
            0 <= i < visit_depths(shape, depth).len() && #[trigger] visit_depths(shape, depth)[i] == depth + nesting(
                shape,
            ) - 1,
    decreases shape, 0nat,
{
    match shape {
        JsonShape::Scalar => {
            assert(visit_depths(shape, depth)[0] == depth);
        },
        JsonShape::Array(items) => {
            lemma_members_reach_deepest(items@, depth + 1);
            lemma_members_length(items@, depth + 1);
            let all = visit_depths(shape, depth);
            assert(all == seq![depth] + members_depths(items@, depth + 1));
            if items@.len() == 0 {
                assert(all[0] == depth);
            } else {
                let j = choose|j: int|
                    0 <= j < members_depths(items@, depth + 1).len() && #[trigger] members_depths(items@, depth + 1)[j]
                        == depth + 1 + deepest(items@) - 1;
                assert(all[j + 1] == members_depths(items@, depth + 1)[j]);
            }
            assert forall|i: int| 0 <= i < all.len() implies #[trigger] all[i] <= depth + nesting(shape) - 1 by {
                if i > 0 {
                    assert(all[i] == members_depths(items@, depth + 1)[i - 1]);
                }
            }
        },
        JsonShape::Object(items) => {
            lemma_members_reach_deepest(items@, depth + 1);
            lemma_members_length(items@, depth + 1);
            let all = visit_depths(shape, depth);
            assert(all == seq![depth] + members_depths(items@, depth + 1));
            if items@.len() == 0 {
                assert(all[0] == depth);
            } else {
                let j = choose|j: int|
                    0 <= j < members_depths(items@, depth + 1).len() && #[trigger] members_depths(items@, depth + 1)[j]
                        == depth + 1 + deepest(items@) - 1;
                assert(all[j + 1] == members_depths(items@, depth + 1)[j]);
            }
            assert forall|i: int| 0 <= i < all.len() implies #[trigger] all[i] <= depth + nesting(shape) - 1 by {
                if i > 0 {
                    assert(all[i] == members_depths(items@, depth + 1)[i - 1]);
                }
            }
        },
    }
}

/// The values of `items` walked from `depth` lie at most `deepest - 1`
/// levels below it, and, when there are any, one lies exactly that deep.
proof fn lemma_members_reach_deepest(items: Seq<JsonShape>, depth: nat)
    ensures
        items.len() > 0 ==> deepest(items) >= 1,
        forall|i: int|
            0 <= i < members_depths(items, depth).len() ==> #[trigger] members_depths(items, depth)[i] <= depth
                + deepest(items) - 1,
        items.len() > 0 ==> exists|i: int|
            0 <= i < members_depths(items, depth).len() && #[trigger] members_depths(items, depth)[i] == depth
                + deepest(items) - 1,
    decreases items, items.len(),
{
    if items.len() > 0 {
        let last = items[items.len() - 1];
        let rest = items.subrange(0, items.len() - 1);
        assert(items.drop_last() == rest);
        assert(items.last() == last);
        lemma_visit_reaches_nesting(last, depth);
        lemma_members_reach_deepest(rest, depth);
        lemma_visit_length(last, depth);
        let head = visit_depths(last, depth);
        let tail = members_depths(rest, depth);
        let all = members_depths(items, depth);
        assert(all == head + tail);
        assert forall|i: int| 0 <= i < all.len() implies #[trigger] all[i] <= depth + deepest(items) - 1 by {
            if i < head.len() {
                assert(all[i] == head[i]);
            } else {
                assert(all[i] == tail[i - head.len()]);
            }
        }
        if nesting(last) > deepest(rest) {
            let j = choose|j: int| 0 <= j < head.len() && #[trigger] head[j] == depth + nesting(last) - 1;
            assert(all[j] == head[j]);
        } else {
            let j = choose|j: int| 0 <= j < tail.len() && #[trigger] tail[j] == depth + deepest(rest) - 1;
            assert(all[head.len() + j] == tail[j]);
        }
    }
}

/// While the count limit is not reached, the walk is refused exactly when a
/// value lies deeper than the depth limit.
proof fn lemma_check_within_count(depths: Seq<nat>, index: int, limits: PersistenceLimits)
    requires
        0 <= index <= depths.len(),
        depths.len() <= limits.maximum_json_values,
    ensures
        shape_check(depths, index, limits) == if exists|j: int|
            index <= j < depths.len() && #[trigger] depths[j] > limits.maximum_json_depth {
            Err::<(), PersistenceError>(PersistenceError::JsonDepthLimit)
        } else {
            Ok::<(), PersistenceError>(())
        },
    decreases depths.len() - index,
{
    if index < depths.len() {
        lemma_check_within_count(depths, index + 1, limits);
        if depths[index] <= limits.maximum_json_depth {
            if exists|j: int| index <= j < depths.len() && #[trigger] depths[j] > limits.maximum_json_depth {
                let j = choose|j: int| index <= j < depths.len() && #[trigger] depths[j] > limits.maximum_json_depth;
                assert(j != index);
                assert(index + 1 <= j);
            }
        }
    }
}

/// A walk that meets more values than the count limit, none of them deeper
/// than the depth limit, is refused for its count.
proof fn lemma_check_over_count(depths: Seq<nat>, index: int, limits: PersistenceLimits)
    requires
        0 <= index <= limits.maximum_json_values,
        depths.len() > limits.maximum_json_values,
        forall|j: int| 0 <= j < depths.len() ==> #[trigger] depths[j] <= limits.maximum_json_depth,
    ensures
        shape_check(depths, index, limits) == Err::<(), PersistenceError>(PersistenceError::JsonValueLimit),
    decreases limits.maximum_json_values - index,
{
    if index + 1 <= limits.maximum_json_values {
        lemma_check_over_count(depths, index + 1, limits);
    }
}

/// A document that nests within the depth limit is refused for its count
/// exactly when it holds more values than the count limit.
pub proof fn lemma_count_limit_decides(root: JsonShape, limits: PersistenceLimits)
    requires
        nesting(root) <= limits.maximum_json_depth,
    ensures
        shape_check(visit_depths(root, 1), 0, limits) == if shape_size(root) <= limits.maximum_json_values {
            Ok::<(), PersistenceError>(())
        } else {
            Err::<(), PersistenceError>(PersistenceError::JsonValueLimit)
        },
{
    let depths = visit_depths(root, 1);
    lemma_visit_length(root, 1);
    lemma_visit_reaches_nesting(root, 1);
    if shape_size(root) <= limits.maximum_json_values {
        lemma_depth_limit_decides(root, limits);
    } else {
        lemma_check_over_count(depths, 0, limits);
    }
}

/// A document whose values fit the count limit is accepted exactly when it
/// nests no deeper than the depth limit, a value inside an array or an
/// object lying one level below its parent.
pub proof fn lemma_depth_limit_decides(root: JsonShape, limits: PersistenceLimits)
    requires
        shape_size(root) <= limits.maximum_json_values,
    ensures
        shape_check(visit_depths(root, 1), 0, limits) == if nesting(root) <= limits.maximum_json_depth {
            Ok::<(), PersistenceError>(())
        } else {
            Err::<(), PersistenceError>(PersistenceError::JsonDepthLimit)
        },
{
    let depths = visit_depths(root, 1);
    lemma_visit_length(root, 1);
    lemma_visit_reaches_nesting(root, 1);
    lemma_check_within_count(depths, 0, limits);
    if nesting(root) > limits.maximum_json_depth {
        let j = choose|j: int| 0 <= j < depths.len() && #[trigger] depths[j] == 1 + nesting(root) - 1;
        assert(depths[j] > limits.maximum_json_depth);
    }
}

/// Walks `root` with an explicit stack, counting values and tracking depth
/// (the root at depth one); refused at the first value past the count
/// limit or deeper than the depth limit.
pub fn validate_json_shape(root: &JsonShape, limits: PersistenceLimits) -> (result: Result<(), PersistenceError>)
    requires
        shape_size(*root) < usize::MAX,
    ensures
        result == shape_check(visit_depths(*root, 1), 0, limits),
{
    let ghost all = visit_depths(*root, 1);
    proof {
        lemma_visit_length(*root, 1);
    }
    let mut visited: usize = 0;
    let mut stack: Vec<(&JsonShape, usize)> = Vec::new();
    stack.push((root, 1));
    proof {
        assert(entries_view(stack@) =~= seq![(*root, 1nat)]);
        assert(entries_view(stack@).drop_last() =~= Seq::<(JsonShape, nat)>::empty());
        assert(stack_depths(Seq::<(JsonShape, nat)>::empty()) == Seq::<nat>::empty());
        assert(visit_depths(*root, 1) + Seq::<nat>::empty() =~= visit_depths(*root, 1));
        assert(stack_depths(entries_view(stack@)) =~= all);
        assert(all.subrange(0, 0) + all =~= all);
    }
    while stack.len() > 0
        invariant
            all == visit_depths(*root, 1),
            all.len() == shape_size(*root),
            shape_size(*root) < usize::MAX,
            visited <= all.len(),
            all == all.subrange(0, visited as int) + stack_depths(entries_view(stack@)),
            shape_check(all, 0, limits) == shape_check(all, visited as int, limits),
            forall|m: int| 0 <= m < stack@.len() ==> 1 <= #[trigger] stack@[m].1 <= visited + 1,
        decreases all.len() - visited,
    {
        let ghost entries = entries_view(stack@);
        let (value, depth) = match stack.pop() {
            Some(entry) => entry,
            None => {
                assert(false);
                return Ok(());
            },
        };
        let ghost rest = entries_view(stack@);
        proof {
            assert(entries.drop_last() =~= rest);
            assert(entries.last() == (*value, depth as nat));
            lemma_visit_length(*value, depth as nat);
            assert(stack_depths(entries) == visit_depths(*value, depth as nat) + stack_depths(rest));
            assert(visit_depths(*value, depth as nat)[0] == depth);
            assert(all[visited as int] == depth) by {
                assert(all == all.subrange(0, visited as int) + stack_depths(entries));
            }
        }
        visited = visited + 1;
        if visited > limits.maximum_json_values {
            return Err(PersistenceError::JsonValueLimit);
        }
        if depth > limits.maximum_json_depth {
            return Err(PersistenceError::JsonDepthLimit);
        }
        let ghost before_push = entries_view(stack@);
        match value {
            JsonShape::Scalar => {
                proof {
                    assert(all.subrange(0, visited as int) =~= all.subrange(0, visited - 1).push(depth as nat));
                    assert(all =~= all.subrange(0, visited as int) + stack_depths(entries_view(stack@)));
                }
            },
            JsonShape::Array(items) | JsonShape::Object(items) => {
                let mut k: usize = 0;
                while k < items.len()
                    invariant
                        k <= items@.len(),
                        depth <= visited,
                        visited <= all.len(),
                        all.len() < usize::MAX,
                        entries_view(stack@) == before_push + items@.subrange(0, k as int).map_values(
                            |item: JsonShape| (item, (depth + 1) as nat),
                        ),
                        forall|m: int| 0 <= m < stack@.len() ==> 1 <= #[trigger] stack@[m].1 <= visited + 1,
                    decreases items@.len() - k,
                {
                    let ghost prev = stack@;
                    let item = &items[k];
                    stack.push((item, depth + 1));
                    assert(*item == items@[k as int]);
                    assert(entries_view(stack@) =~= entries_view(prev).push((items@[k as int], (depth + 1) as nat)));
                    assert(items@.subrange(0, k + 1).map_values(|item: JsonShape| (item, (depth + 1) as nat))
                        =~= items@.subrange(0, k as int).map_values(|item: JsonShape| (item, (depth + 1) as nat)).push(
                        (items@[k as int], (depth + 1) as nat),
                    ));
                    assert(entries_view(stack@) =~= before_push + items@.subrange(0, k + 1).map_values(
                        |item: JsonShape| (item, (depth + 1) as nat),
                    ));
                    k = k + 1;
                }
                proof {
                    assert(items@.subrange(0, items@.len() as int) =~= items@);
                    lemma_push_members(before_push, items@, (depth + 1) as nat, items@.len() as int);
                    assert(visit_depths(*value, depth as nat) == seq![depth as nat] + members_depths(
                        items@,
                        (depth + 1) as nat,
                    ));
                    assert(all.subrange(0, visited as int) =~= all.subrange(0, visited - 1).push(depth as nat));
                    assert(all =~= all.subrange(0, visited as int) + stack_depths(entries_view(stack@)));
                }
            },
        }
    }
    proof {
        assert(entries_view(stack@) =~= Seq::<(JsonShape, nat)>::empty());
        assert(all.subrange(0, visited as int) + Seq::<nat>::empty() =~= all.subrange(0, visited as int));
    }
    Ok(())
}

/// The recovery journal kept beside a project file: the sequence numbers of
/// the backups that exist, oldest first, and the next sequence number.
#[derive(Clone, Debug)]
pub struct RecoveryJournal {
    pub schema_version: u32,
    pub next_sequence: u64,
    pub backups: Vec<u64>,
}

impl RecoveryJournal {
    /// A journal with no backups.
    pub fn new() -> (journal: Self)
        ensures
            journal.schema_version == 1,
            journal.next_sequence == 1,
            journal.backups@.len() == 0,
    {
        RecoveryJournal { schema_version: 1, next_sequence: 1, backups: Vec::new() }
    }

    /// Only schema one is understood.
    pub fn check_schema(&self) -> (result: Result<(), PersistenceError>)
        ensures
            (self.schema_version == 1) <==> (result is Ok),
            match result {
                Err(PersistenceError::UnsupportedSchema(v)) => v == self.schema_version,
                Err(_) => false,
                Ok(_) => true,
            },
    {
        if self.schema_version != 1 {
            return Err(PersistenceError::UnsupportedSchema(self.schema_version));
        }
        Ok(())
    }

    /// Records a backup of the current primary under the next sequence
    /// number, which it returns; the counter saturates.
    pub fn record_backup(&mut self) -> (sequence: u64)
        ensures
            sequence == old(self).next_sequence,
            final(self).schema_version == old(self).schema_version,
            final(self).backups@ == old(self).backups@.push(sequence),
            final(self).next_sequence == if old(self).next_sequence == u64::MAX {
                u64::MAX
            } else {
                (old(self).next_sequence + 1) as u64
            },
    {
        let sequence = self.next_sequence;
        self.backups.push(sequence);
        self.next_sequence = self.next_sequence.saturating_add(1);
        sequence
    }

    /// Drops the oldest backups until at most `maximum` remain and returns
    /// the dropped sequence numbers, oldest first.
    pub fn prune(&mut self, maximum: usize) -> (stale: Vec<u64>)
        ensures
            final(self).schema_version == old(self).schema_version,
            final(self).next_sequence == old(self).next_sequence,
            old(self).backups@.len() <= maximum ==> final(self).backups@ == old(self).backups@ && stale@.len() == 0,
            old(self).backups@.len() > maximum ==> {
                &&& final(self).backups@ == old(self).backups@.skip(old(self).backups@.len() - maximum)
                &&& stale@ == old(self).backups@.take(old(self).backups@.len() - maximum)
            },
    {
        let mut stale: Vec<u64> = Vec::new();
        if self.backups.len() <= maximum {
            return stale;
        }
        let excess = self.backups.len() - maximum;
        let mut kept: Vec<u64> = Vec::new();
        let mut i: usize = 0;
        while i < self.backups.len()
            invariant
                i <= self.backups@.len(),
                self.backups@ == old(self).backups@,
                excess == self.backups@.len() - maximum,
                excess <= self.backups@.len(),
                i <= excess ==> stale@ == self.backups@.take(i as int) && kept@.len() == 0,
                i > excess ==> stale@ == self.backups@.take(excess as int) && kept@ == self.backups@.subrange(
                    excess as int,
                    i as int,
                ),
            decreases self.backups@.len() - i,
        {
            if i < excess {
                stale.push(self.backups[i]);
                assert(stale@ =~= self.backups@.take(i as int + 1));
            } else {
                kept.push(self.backups[i]);
                assert(kept@ =~= self.backups@.subrange(excess as int, i as int + 1));
            }
            i = i + 1;
        }
        assert(kept@ =~= old(self).backups@.skip(excess as int));
        self.backups = kept;
        stale
    }

    /// The backups to try when the primary is unreadable, newest first.
    pub fn recovery_candidates(&self) -> (candidates: Vec<u64>)
        ensures
            candidates@ == self.backups@.reverse(),
    {
        let mut candidates: Vec<u64> = Vec::new();
        let mut i = self.backups.len();
        while i > 0
            invariant
                i <= self.backups@.len(),
                candidates@ == self.backups@.subrange(i as int, self.backups@.len() as int).reverse(),
            decreases i,
        {
            i = i - 1;
            candidates.push(self.backups[i]);
            assert(candidates@ =~= self.backups@.subrange(i as int, self.backups@.len() as int).reverse());
        }
        assert(self.backups@.subrange(0, self.backups@.len() as int) =~= self.backups@);
        candidates
    }
}

/// Where a loaded project came from.
#[derive(Clone, Debug, PartialEq, Eq)]
pub enum RecoverySource {
    Primary,
    /// A backup, by its path.
    Backup(String),
}

pub struct LoadedProject<T> {
    pub snapshot: SaveSnapshot<T>,
    pub source: RecoverySource,
    pub primary_error: Option<String>,
}

/// Keeps up to `maximum_backups` older versions of a project beside it.
pub struct PersistenceStore {
    maximum_backups: usize,
}

impl PersistenceStore {
    pub closed spec fn spec_maximum_backups(&self) -> usize {
        self.maximum_backups
    }

    pub fn new(maximum_backups: usize) -> (result: Result<Self, PersistenceError>)
        ensures
            (maximum_backups == 0) <==> (result is Err),
            match result {
                Ok(store) => store.spec_maximum_backups() == maximum_backups,
                Err(e) => e is InvalidCodecConfiguration,
            },
    {
        if maximum_backups == 0 {
            return Err(PersistenceError::InvalidCodecConfiguration);
        }
        Ok(PersistenceStore { maximum_backups })
    }

    pub fn maximum_backups(&self) -> (maximum: usize)
        ensures
            maximum == self.spec_maximum_backups(),
    {
        self.maximum_backups
    }
}

} // verus!
