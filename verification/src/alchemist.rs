//! Alchemist formulas: the registry of executable node types, the formula
//! catalog, compiled-kernel identifiers and the formula graph domain.

use std::collections::BTreeMap;
use std::sync::Arc;
use vstd::prelude::*;
use vstd::string::*;
use crate::model::{random_uuid_bits, EntityId, Revision};
use crate::graph::domain::{GraphDiagnostic, GraphDomain, PortDescriptor, PortDirection, PortRef};
use crate::graph::document::{port_listed, GraphDocument, GraphEdge};
use crate::graph::transaction::{connect_refused, GraphTransactionError};
use crate::graph::ids::{GraphEdgeId, GraphPortId};
use crate::text::strings_equal;
use crate::values::{Duplicate, Value, duplicate_all};
use self::formula::AlchemistFormula;

pub mod formula;
pub mod compiler;
pub mod runtime;
pub mod builder;
pub mod codec;
pub mod rebuild;

verus! {

broadcast use {vstd::std_specs::btree::group_btree_axioms, vstd::laws_cmp::group_laws_cmp};

/// The operation an executable node type performs.
#[derive(Clone, Copy, Debug, PartialEq, Eq, Structural)]
pub enum BuiltinOperation {
    Constant,
    AddFloat,
    MultiplyFloat,
    PassThrough,
    ConditionGate,
}

/// What the evaluator may assume of a node type.
#[derive(Clone, Copy, Debug, PartialEq, Eq, Structural)]
pub struct ANodeCapabilities {
    pub pure: bool,
    pub state_slots: u16,
    pub time_dependent: bool,
    pub effectful: bool,
    pub deterministic: bool,
    pub thread_safe: bool,
}

/// A pure, deterministic, thread-safe node type without state.
pub open spec fn pure_capabilities() -> ANodeCapabilities {
    ANodeCapabilities {
        pure: true,
        state_slots: 0,
        time_dependent: false,
        effectful: false,
        deterministic: true,
        thread_safe: true,
    }
}

impl ANodeCapabilities {
    /// A pure, deterministic, thread-safe node type without state.
    pub fn pure() -> (capabilities: Self)
        ensures
            capabilities == pure_capabilities(),
    {
        ANodeCapabilities {
            pure: true,
            state_slots: 0,
            time_dependent: false,
            effectful: false,
            deterministic: true,
            thread_safe: true,
        }
    }
}

/// The name of an executable node type.
#[derive(Clone, Debug, PartialEq, Eq)]
pub struct ANodeTypeId(pub String);

#[derive(Debug)]
pub struct ANodeDefinition {
    pub node_type: ANodeTypeId,
    pub operation: BuiltinOperation,
    pub capabilities: ANodeCapabilities,
}

/// The names of a list of definitions.
pub open spec fn definition_types(definitions: Seq<ANodeDefinition>) -> Seq<Seq<char>> {
    definitions.map_values(|definition: ANodeDefinition| definition.node_type.0@)
}

/// The first definition of `definitions` named `name`.
pub open spec fn definition_named(definitions: Seq<ANodeDefinition>, name: Seq<char>) -> Option<ANodeDefinition>
    decreases definitions.len(),
{
    if definitions.len() == 0 {
        None
    } else if definitions[0].node_type.0@ == name {
        Some(definitions[0])
    } else {
        definition_named(definitions.drop_first(), name)
    }
}

/// The executable node types known to the compiler, under a revision that
/// advances with every registration.
#[derive(Debug)]
pub struct ANodeRegistry {
    revision: Revision,
    definitions: Vec<ANodeDefinition>,
}

/// The names and operations of the built-in node types.
pub open spec fn builtin_types() -> Seq<(Seq<char>, BuiltinOperation)> {
    seq![
        ("constant"@, BuiltinOperation::Constant),
        ("add_float"@, BuiltinOperation::AddFloat),
        ("multiply_float"@, BuiltinOperation::MultiplyFloat),
        ("pass_through"@, BuiltinOperation::PassThrough),
        ("condition_gate"@, BuiltinOperation::ConditionGate),
    ]
}

impl ANodeRegistry {
    #[verifier::type_invariant]
    spec fn distinct_types(self) -> bool {
        definition_types(self.definitions@).no_duplicates()
    }

    pub closed spec fn spec_revision(&self) -> Revision {
        self.revision
    }

    pub closed spec fn spec_definitions(&self) -> Seq<ANodeDefinition> {
        self.definitions@
    }

    /// The built-in node types, each pure, at revision one.
    pub fn with_builtins() -> (registry: Self)
        ensures
            registry.spec_revision() == Revision(1),
            registry.spec_definitions().len() == 5,
            forall|i: int|
                0 <= i < 5 ==> {
                    &&& (#[trigger] registry.spec_definitions()[i]).node_type.0@ == builtin_types()[i].0
                    &&& registry.spec_definitions()[i].operation == builtin_types()[i].1
                    &&& registry.spec_definitions()[i].capabilities == pure_capabilities()
                },
    {
        let mut definitions: Vec<ANodeDefinition> = Vec::new();
        definitions.push(
            ANodeDefinition {
                node_type: ANodeTypeId(String::from_str("constant")),
                operation: BuiltinOperation::Constant,
                capabilities: ANodeCapabilities::pure(),
            },
        );
        definitions.push(
            ANodeDefinition {
                node_type: ANodeTypeId(String::from_str("add_float")),
                operation: BuiltinOperation::AddFloat,
                capabilities: ANodeCapabilities::pure(),
            },
        );
        definitions.push(
            ANodeDefinition {
                node_type: ANodeTypeId(String::from_str("multiply_float")),
                operation: BuiltinOperation::MultiplyFloat,
                capabilities: ANodeCapabilities::pure(),
            },
        );
        definitions.push(
            ANodeDefinition {
                node_type: ANodeTypeId(String::from_str("pass_through")),
                operation: BuiltinOperation::PassThrough,
                capabilities: ANodeCapabilities::pure(),
            },
        );
        definitions.push(
            ANodeDefinition {
                node_type: ANodeTypeId(String::from_str("condition_gate")),
                operation: BuiltinOperation::ConditionGate,
                capabilities: ANodeCapabilities::pure(),
            },
        );
        proof {
            reveal_strlit("constant");
            reveal_strlit("add_float");
            reveal_strlit("multiply_float");
            reveal_strlit("pass_through");
            reveal_strlit("condition_gate");
            let types = definition_types(definitions@);
            assert forall|i: int, j: int| 0 <= i < j < types.len() implies types[i] != types[j] by {
                assert(types[i].len() != types[j].len() || types[i][0] != types[j][0] || types[i][1]
                    != types[j][1]);
            }
        }
        ANodeRegistry { revision: Revision(1), definitions }
    }

    /// The registry's revision.
    pub fn revision(&self) -> (revision: Revision)
        ensures
            revision == self.spec_revision(),
    {
        self.revision
    }

    /// The definition of `node_type`, if registered.
    pub fn get(&self, node_type: &ANodeTypeId) -> (definition: Option<&ANodeDefinition>)
        ensures
            match definition {
                Some(d) => exists|i: int|
                    0 <= i < self.spec_definitions().len() && *d == #[trigger] self.spec_definitions()[i]
                        && d.node_type.0@ == node_type.0@,
                None => !definition_types(self.spec_definitions()).contains(node_type.0@),
            },
            match definition {
                Some(d) => definition_named(self.spec_definitions(), node_type.0@) == Some(*d),
                None => definition_named(self.spec_definitions(), node_type.0@) is None,
            },
    {
        let mut i: usize = 0;
        assert(self.definitions@.subrange(0, self.definitions@.len() as int) =~= self.definitions@);
        while i < self.definitions.len()
            invariant
                i <= self.definitions@.len(),
                forall|j: int| 0 <= j < i ==> self.definitions@[j].node_type.0@ != node_type.0@,
                definition_named(self.definitions@, node_type.0@) == definition_named(
                    self.definitions@.subrange(i as int, self.definitions@.len() as int),
                    node_type.0@,
                ),
            decreases self.definitions@.len() - i,
        {
            assert(self.definitions@.subrange(i as int, self.definitions@.len() as int).drop_first()
                =~= self.definitions@.subrange(i + 1, self.definitions@.len() as int));
            if strings_equal(self.definitions[i].node_type.0.as_str(), node_type.0.as_str()) {
                assert(self.definitions@[i as int] == self.spec_definitions()[i as int]);
                return Some(&self.definitions[i]);
            }
            i = i + 1;
        }
        proof {
            if definition_types(self.definitions@).contains(node_type.0@) {
                let j = choose|j: int|
                    0 <= j < definition_types(self.definitions@).len() && definition_types(self.definitions@)[j]
                        == node_type.0@;
                assert(self.definitions@[j].node_type.0@ == node_type.0@);
            }
        }
        None
    }

    /// Adds a definition for a type not yet registered and advances the
    /// revision; refused (returning `false`, nothing changed) when the type
    /// is registered or the revision cannot advance.
    pub fn register(&mut self, definition: ANodeDefinition) -> (added: bool)
        ensures
            added <==> (!definition_types(old(self).spec_definitions()).contains(definition.node_type.0@)
                && old(self).spec_revision().0 < u64::MAX),
            added ==> final(self).spec_definitions() == old(self).spec_definitions().push(definition)
                && final(self).spec_revision().0 == old(self).spec_revision().0 + 1,
            !added ==> final(self).spec_definitions() == old(self).spec_definitions(),
            !added ==> final(self).spec_revision() == old(self).spec_revision(),
    {
        proof {
            use_type_invariant(&*self);
        }
        let existing = self.get(&definition.node_type);
        if existing.is_some() {
            proof {
                let i = choose|i: int|
                    0 <= i < self.spec_definitions().len() && *existing.unwrap() == #[trigger] self.spec_definitions()[i]
                        && existing.unwrap().node_type.0@ == definition.node_type.0@;
                assert(definition_types(self.spec_definitions())[i] == definition.node_type.0@);
            }
            return false;
        }
        let revision = match self.revision.next() {
            None => {
                return false;
            },
            Some(revision) => revision,
        };
        proof {
            let types = definition_types(self.definitions@);
            assert(definition_types(self.definitions@.push(definition)) =~= types.push(definition.node_type.0@));
        }
        let mut definitions = Vec::new();
        std::mem::swap(&mut definitions, &mut self.definitions);
        definitions.push(definition);
        self.definitions = definitions;
        self.revision = revision;
        true
    }
}

/// A formula's identity.
#[derive(Clone, Copy, Debug, PartialEq, Eq, Structural, PartialOrd, Ord, Hash)]
pub struct FormulaId(pub EntityId);

impl FormulaId {
    /// A fresh random identity: the bits of a version 4 uuid.
    pub fn new() -> (id: Self)
        ensures
            random_uuid_bits(id.0.0),
    {
        FormulaId(EntityId::new())
    }
}

/// Identity of an input or output of a formula's surface.
#[derive(Clone, Copy, Debug, PartialEq, Eq, Structural, PartialOrd, Ord, Hash)]
pub struct SurfaceItemId(pub EntityId);

impl SurfaceItemId {
    /// A fresh random identity: the bits of a version 4 uuid.
    pub fn new() -> (id: Self)
        ensures
            random_uuid_bits(id.0.0),
    {
        SurfaceItemId(EntityId::new())
    }
}

/// The schema version a formula was authored against.
#[derive(Clone, Copy, Debug, PartialEq, Eq, Structural)]
pub struct FormulaSchema {
    pub version: u32,
}

/// One formula of a catalog and whether it ships with the host.
#[derive(Clone)]
pub struct CatalogEntry {
    pub formula: Arc<AlchemistFormula>,
    pub built_in: bool,
}

#[derive(Clone, Copy, Debug, PartialEq, Eq, Structural)]
pub enum FormulaCatalogError {
    /// A formula with this identity is already registered.
    Duplicate(FormulaId),
    /// No formula with this identity is registered.
    Missing(FormulaId),
    /// Built-in formulas cannot be replaced.
    ReadOnly(FormulaId),
}

/// The formulas available to a project, by identity.
pub struct FormulaCatalog {
    entries: BTreeMap<u128, CatalogEntry>,
}

impl FormulaCatalog {
    /// The entries by formula identity bits.
    pub closed spec fn spec_entries(&self) -> Map<u128, CatalogEntry> {
        self.entries@
    }

    /// An empty catalog.
    pub fn new() -> (catalog: Self)
        ensures
            catalog.spec_entries() == Map::<u128, CatalogEntry>::empty(),
    {
        FormulaCatalog { entries: BTreeMap::new() }
    }

    /// The entry of formula `id`.
    pub fn get(&self, id: FormulaId) -> (entry: Option<&CatalogEntry>)
        ensures
            match entry {
                Some(e) => self.spec_entries().contains_key(id.0.0) && *e == self.spec_entries()[id.0.0],
                None => !self.spec_entries().contains_key(id.0.0),
            },
    {
        self.entries.get(&id.0.0)
    }

    /// The number of formulas.
    pub fn len(&self) -> (count: usize)
        ensures
            count == self.spec_entries().len(),
    {
        self.entries.len()
    }

    /// Registers `formula` under its identity; refused when the identity is
    /// taken.
    pub fn insert(&mut self, formula: Arc<AlchemistFormula>, built_in: bool) -> (result: Result<(), FormulaCatalogError>)
        ensures
            old(self).spec_entries().contains_key(formula.id.0.0) ==> result == Err::<(), FormulaCatalogError>(
                FormulaCatalogError::Duplicate(formula.id),
            ),
            !old(self).spec_entries().contains_key(formula.id.0.0) ==> result is Ok,
            final(self).spec_entries() == entries_after_insert(
                old(self).spec_entries(),
                formula.id.0.0,
                CatalogEntry { formula, built_in },
            ),
    {
        let id = formula.id;
        if self.entries.contains_key(&id.0.0) {
            return Err(FormulaCatalogError::Duplicate(id));
        }
        self.entries.insert(id.0.0, CatalogEntry { formula, built_in });
        Ok(())
    }

    /// Replaces the formula under the identity of `formula`; refused when
    /// that identity is not registered or its formula is built in.
    pub fn replace(&mut self, formula: Arc<AlchemistFormula>) -> (result: Result<(), FormulaCatalogError>)
        ensures
            !old(self).spec_entries().contains_key(formula.id.0.0) ==> result == Err::<(), FormulaCatalogError>(
                FormulaCatalogError::Missing(formula.id),
            ),
            old(self).spec_entries().contains_key(formula.id.0.0) && old(self).spec_entries()[formula.id.0.0].built_in
                ==> result == Err::<(), FormulaCatalogError>(FormulaCatalogError::ReadOnly(formula.id)),
            old(self).spec_entries().contains_key(formula.id.0.0) && !old(self).spec_entries()[formula.id.0.0].built_in
                ==> result is Ok,
            final(self).spec_entries() == entries_after_replace(old(self).spec_entries(), formula.id.0.0, formula),
    {
        let id = formula.id;
        let entry = match self.entries.remove(&id.0.0) {
            None => {
                return Err(FormulaCatalogError::Missing(id));
            },
            Some(entry) => entry,
        };
        if entry.built_in {
            self.entries.insert(id.0.0, entry);
            assert(self.entries@ =~= old(self).entries@);
            return Err(FormulaCatalogError::ReadOnly(id));
        }
        self.entries.insert(id.0.0, CatalogEntry { formula, built_in: false });
        Ok(())
    }
}

/// The entries after registering `entry` under `key`: unchanged when the key
/// is taken.
pub open spec fn entries_after_insert(
    entries: Map<u128, CatalogEntry>,
    key: u128,
    entry: CatalogEntry,
) -> Map<u128, CatalogEntry> {
    if entries.contains_key(key) {
        entries
    } else {
        entries.insert(key, entry)
    }
}

/// The entries after replacing the formula under `key` with `formula`:
/// unchanged when the key is free or its entry is built in.
pub open spec fn entries_after_replace(
    entries: Map<u128, CatalogEntry>,
    key: u128,
    formula: Arc<AlchemistFormula>,
) -> Map<u128, CatalogEntry> {
    if !entries.contains_key(key) || entries[key].built_in {
        entries
    } else {
        entries.insert(key, CatalogEntry { formula, built_in: false })
    }
}

/// A built-in entry survives every registration and every replacement,
/// whatever formula they carry: it stays registered with the same formula.
pub proof fn lemma_built_in_formulas_are_read_only(
    entries: Map<u128, CatalogEntry>,
    built_in_key: u128,
    key: u128,
    entry: CatalogEntry,
    formula: Arc<AlchemistFormula>,
)
    requires
        entries.contains_key(built_in_key),
        entries[built_in_key].built_in,
    ensures
        entries_after_insert(entries, key, entry).contains_key(built_in_key),
        entries_after_insert(entries, key, entry)[built_in_key] == entries[built_in_key],
        entries_after_replace(entries, key, formula).contains_key(built_in_key),
        entries_after_replace(entries, key, formula)[built_in_key] == entries[built_in_key],
{
}

/// Identity of an executable node within a compiled kernel.
#[derive(Clone, Copy, Debug, PartialEq, Eq, Structural, PartialOrd, Ord)]
pub struct ExecNodeId(pub u32);

/// A value slot of a compiled kernel.
#[derive(Clone, Copy, Debug, PartialEq, Eq, Structural, PartialOrd, Ord)]
pub struct ValueSlot(pub u32);

/// What a compiled kernel was compiled from: a formula at a graph revision
/// with a registry revision.
#[derive(Clone, Copy, Debug, PartialEq, Eq, Structural, PartialOrd, Ord)]
pub struct CompileKey {
    pub formula: FormulaId,
    pub graph_revision: Revision,
    pub registry_revision: Revision,
}

/// The state slots a compiled kernel needs.
#[derive(Clone, Copy, Debug, Default, PartialEq, Eq, Structural)]
pub struct StateLayout {
    pub slots: u32,
}

/// Options of one evaluation.
#[derive(Clone, Copy, Debug, Default, PartialEq, Eq, Structural)]
pub struct EvaluationOptions {
    pub capture_observation: bool,
}

/// Totals over a batch of formula instances.
#[derive(Clone, Copy, Debug, Default, PartialEq, Eq, Structural)]
pub struct BatchEvaluationReport {
    pub instances: usize,
    pub executed_operations: usize,
    pub outputs_changed: usize,
}

/// How an edge converts between port value types.
#[derive(Clone, Copy, Debug, PartialEq, Eq, Structural)]
pub enum ConversionPolicy {
    /// Both ports must have the same value type.
    Exact,
    /// The edge converts explicitly.
    Explicit,
}

/// One edge of a formula file.
#[derive(Clone, Copy, Debug, PartialEq, Eq, Structural)]
pub struct FormulaEdgeV1 {
    pub id: GraphEdgeId,
    pub from: PortRef,
    pub to: PortRef,
    pub policy: ConversionPolicy,
}

/// Graph-level data of a formula graph.
#[derive(Clone, Debug, PartialEq, Eq)]
pub struct AlchemistGraphData {
    pub name: String,
}

/// A port of a formula node, with the name of its value type.
#[derive(Clone, Debug, PartialEq, Eq)]
pub struct AlchemistPort {
    pub id: GraphPortId,
    pub name: String,
    pub value_type: String,
}

/// A formula node: its executable type, its ports and its configuration,
/// a list of named values in which each name occurs once.
#[derive(Clone, Debug, PartialEq, Eq)]
pub struct AlchemistNode {
    pub node_type: ANodeTypeId,
    pub inputs: Vec<AlchemistPort>,
    pub outputs: Vec<AlchemistPort>,
    pub config: Vec<(String, Value)>,
}

impl Duplicate for ANodeTypeId {
    fn duplicate(&self) -> (copy: Self) {
        ANodeTypeId(self.0.clone())
    }
}

impl Duplicate for AlchemistGraphData {
    fn duplicate(&self) -> (copy: Self) {
        AlchemistGraphData { name: self.name.clone() }
    }
}

impl Duplicate for AlchemistPort {
    fn duplicate(&self) -> (copy: Self) {
        AlchemistPort { id: self.id, name: self.name.clone(), value_type: self.value_type.clone() }
    }
}

/// `a` and `b` have the same type, ports and configuration.
pub open spec fn same_node(a: AlchemistNode, b: AlchemistNode) -> bool {
    &&& a.node_type == b.node_type
    &&& a.inputs@ == b.inputs@
    &&& a.outputs@ == b.outputs@
    &&& a.config@ == b.config@
}

impl AlchemistNode {
    /// A node with the same type, ports and configuration.
    pub fn duplicate(&self) -> (copy: Self)
        ensures
            same_node(copy, *self),
    {
        AlchemistNode {
            node_type: self.node_type.duplicate(),
            inputs: duplicate_all(&self.inputs),
            outputs: duplicate_all(&self.outputs),
            config: duplicate_all(&self.config),
        }
    }
}

/// The graph domain of formulas.
#[derive(Clone, Copy, Debug)]
pub struct AlchemistGraphDomain;

/// The first port of `ports` with identity `id`.
pub open spec fn find_port(ports: Seq<AlchemistPort>, id: GraphPortId) -> Option<AlchemistPort>
    decreases ports.len(),
{
    if ports.len() == 0 {
        None
    } else if ports[0].id == id {
        Some(ports[0])
    } else {
        find_port(ports.drop_first(), id)
    }
}

fn port_with_id(ports: &Vec<AlchemistPort>, id: GraphPortId) -> (port: Option<&AlchemistPort>)
    ensures
        match find_port(ports@, id) {
            None => port is None,
            Some(p) => port is Some && *port.unwrap() == p,
        },
{
    let mut i: usize = 0;
    assert(ports@.subrange(0, ports@.len() as int) =~= ports@);
    while i < ports.len()
        invariant
            i <= ports@.len(),
            find_port(ports@, id) == find_port(ports@.subrange(i as int, ports@.len() as int), id),
        decreases ports@.len() - i,
    {
        assert(ports@.subrange(i as int, ports@.len() as int).drop_first() =~= ports@.subrange(
            i + 1,
            ports@.len() as int,
        ));
        if ports[i].id.0.0 == id.0.0 {
            return Some(&ports[i]);
        }
        i = i + 1;
    }
    None
}

/// The message of a connection between ports of different value types.
pub open spec fn mismatch_text(output_type: Seq<char>, input_type: Seq<char>) -> Seq<char> {
    output_type + " cannot connect to "@ + input_type + " without an explicit conversion"@
}

impl GraphDomain for AlchemistGraphDomain {
    type GraphData = AlchemistGraphData;
    type NodeData = AlchemistNode;
    type PortData = String;
    type EdgeData = ConversionPolicy;

    /// Formula graphs have no whole-graph rules.
    open spec fn accepts_every_graph(&self) -> bool {
        true
    }

    /// The input ports, then the output ports, with their value types.
    fn node_ports(&self, node: &AlchemistNode, graph: &GraphDocument<Self>) -> (ports: Vec<PortDescriptor<String>>)
        ensures
            ports@.len() == node.inputs@.len() + node.outputs@.len(),
            forall|i: int|
                0 <= i < node.inputs@.len() ==> (#[trigger] ports@[i]).id == node.inputs@[i].id
                    && ports@[i].direction == PortDirection::Input && ports@[i].data@ == node.inputs@[i].value_type@,
            forall|i: int|
                0 <= i < node.outputs@.len() ==> (#[trigger] ports@[node.inputs@.len() + i]).id == node.outputs@[i].id
                    && ports@[node.inputs@.len() + i].direction == PortDirection::Output
                    && ports@[node.inputs@.len() + i].data@ == node.outputs@[i].value_type@,
    {
        let mut ports: Vec<PortDescriptor<String>> = Vec::new();
        let mut i: usize = 0;
        while i < node.inputs.len()
            invariant
                i <= node.inputs@.len(),
                ports@.len() == i,
                forall|j: int|
                    0 <= j < i ==> (#[trigger] ports@[j]).id == node.inputs@[j].id && ports@[j].direction
                        == PortDirection::Input && ports@[j].data@ == node.inputs@[j].value_type@,
            decreases node.inputs@.len() - i,
        {
            let port = &node.inputs[i];
            ports.push(PortDescriptor { id: port.id, direction: PortDirection::Input, data: port.value_type.clone() });
            i = i + 1;
        }
        let mut k: usize = 0;
        while k < node.outputs.len()
            invariant
                k <= node.outputs@.len(),
                ports@.len() == node.inputs@.len() + k,
                forall|j: int|
                    0 <= j < node.inputs@.len() ==> (#[trigger] ports@[j]).id == node.inputs@[j].id
                        && ports@[j].direction == PortDirection::Input && ports@[j].data@
                        == node.inputs@[j].value_type@,
                forall|j: int|
                    0 <= j < k ==> (#[trigger] ports@[node.inputs@.len() + j]).id == node.outputs@[j].id
                        && ports@[node.inputs@.len() + j].direction == PortDirection::Output
                        && ports@[node.inputs@.len() + j].data@ == node.outputs@[j].value_type@,
            decreases node.outputs@.len() - k,
        {
            let port = &node.outputs[k];
            ports.push(PortDescriptor { id: port.id, direction: PortDirection::Output, data: port.value_type.clone() });
            k = k + 1;
        }
        ports
    }

    /// Accepts an edge between an existing output and input port; with the
    /// exact policy their value types must agree.
    fn validate_connection(
        &self,
        graph: &GraphDocument<Self>,
        from_node: Option<&AlchemistNode>,
        to_node: Option<&AlchemistNode>,
        from: PortRef,
        to: PortRef,
        policy: &ConversionPolicy,
    ) -> (result: Result<(), GraphDiagnostic>)
        ensures
            ({
                let output = match from_node {
                    Some(node) => find_port(node.outputs@, from.port),
                    None => None,
                };
                let input = match to_node {
                    Some(node) => find_port(node.inputs@, to.port),
                    None => None,
                };
                match (output, input) {
                    (Some(o), Some(i)) => if *policy == ConversionPolicy::Exact && o.value_type@ != i.value_type@ {
                        result matches Err(d) && d.code@ == "alchemist.type_mismatch"@ && d.message@ == mismatch_text(
                            o.value_type@,
                            i.value_type@,
                        )
                    } else {
                        result is Ok
                    },
                    _ => result matches Err(d) && d.code@ == "alchemist.missing_port"@ && d.message@
                        == "formula port is missing"@,
                }
            }),
    {
        let output = match from_node {
            Some(node) => port_with_id(&node.outputs, from.port),
            None => None,
        };
        let input = match to_node {
            Some(node) => port_with_id(&node.inputs, to.port),
            None => None,
        };
        match (output, input) {
            (Some(output), Some(input)) => {
                let exact = match policy {
                    ConversionPolicy::Exact => true,
                    ConversionPolicy::Explicit => false,
                };
                if exact && !strings_equal(output.value_type.as_str(), input.value_type.as_str()) {
                    let message = output.value_type.clone().concat(" cannot connect to ").concat(
                        input.value_type.as_str(),
                    ).concat(" without an explicit conversion");
                    Err(GraphDiagnostic::error(String::from_str("alchemist.type_mismatch"), message))
                } else {
                    Ok(())
                }
            },
            _ => Err(
                GraphDiagnostic::error(
                    String::from_str("alchemist.missing_port"),
                    String::from_str("formula port is missing"),
                ),
            ),
        }
    }
}


/// A port that `find_port` finds is one of `ports`.
proof fn lemma_found_port_is_listed(ports: Seq<AlchemistPort>, id: GraphPortId)
    requires
        find_port(ports, id) is Some,
    ensures
        exists|i: int| 0 <= i < ports.len() && ports[i].id == id && #[trigger] ports[i] == find_port(ports, id)->0,
    decreases ports.len(),
{
    if ports[0].id != id {
        lemma_found_port_is_listed(ports.drop_first(), id);
        let i = choose|i: int|
            0 <= i < ports.drop_first().len() && ports.drop_first()[i].id == id && #[trigger] ports.drop_first()[i]
                == find_port(ports.drop_first(), id)->0;
        assert(ports[i + 1] == ports.drop_first()[i]);
    } else {
        assert(ports[0] == find_port(ports, id)->0);
    }
}

/// In a formula graph, connecting an output port to an input port that both
/// exist, under an edge identity not yet taken, is refused only when the
/// exact policy joins ports of different value types, and then with the
/// type mismatch diagnostic.
pub proof fn lemma_formula_connection_refusal(
    document: &GraphDocument<AlchemistGraphDomain>,
    edge: GraphEdge<AlchemistGraphDomain>,
    error: GraphTransactionError,
)
    requires
        connect_refused(document, edge, error),
        !document@.edges.contains_key(edge.id.key()),
        document@.nodes.contains_key(edge.from.node.key()),
        document@.nodes.contains_key(edge.to.node.key()),
        find_port(document@.nodes[edge.from.node.key()].data.outputs@, edge.from.port) is Some,
        find_port(document@.nodes[edge.to.node.key()].data.inputs@, edge.to.port) is Some,
    ensures
        edge.data == ConversionPolicy::Exact,
        find_port(document@.nodes[edge.from.node.key()].data.outputs@, edge.from.port)->0.value_type@ != find_port(
            document@.nodes[edge.to.node.key()].data.inputs@,
            edge.to.port,
        )->0.value_type@,
        error matches GraphTransactionError::Connection(d) && d.code@ == "alchemist.type_mismatch"@,
{
    let source = document@.nodes[edge.from.node.key()].data;
    let target = document@.nodes[edge.to.node.key()].data;
    lemma_found_port_is_listed(source.outputs@, edge.from.port);
    lemma_found_port_is_listed(target.inputs@, edge.to.port);
    assert forall|ports: Vec<PortDescriptor<String>>|
        call_ensures(
            AlchemistGraphDomain::node_ports,
            (&document.spec_domain(), &source, document),
            ports,
        ) implies port_listed(ports@, edge.from.port, PortDirection::Output) by {
        let i = choose|i: int|
            0 <= i < source.outputs@.len() && source.outputs@[i].id == edge.from.port && #[trigger] source.outputs@[i]
                == find_port(source.outputs@, edge.from.port)->0;
        assert(ports@[source.inputs@.len() + i].id == source.outputs@[i].id);
    }
    assert forall|ports: Vec<PortDescriptor<String>>|
        call_ensures(
            AlchemistGraphDomain::node_ports,
            (&document.spec_domain(), &target, document),
            ports,
        ) implies port_listed(ports@, edge.to.port, PortDirection::Input) by {
        let i = choose|i: int|
            0 <= i < target.inputs@.len() && target.inputs@[i].id == edge.to.port && #[trigger] target.inputs@[i]
                == find_port(target.inputs@, edge.to.port)->0;
        assert(ports@[i].id == target.inputs@[i].id);
    }
}

} // verus!
