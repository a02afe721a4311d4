//! Authored formulas: a formula graph with its properties, its surface of
//! inputs and outputs, managed regions, metadata and defaults.

use std::collections::BTreeMap;
use vstd::prelude::*;
use crate::model::{random_uuid_bits, EntityId};
use crate::values::{Duplicate, Value, duplicate_all};
use crate::graph::domain::PortRef;
use crate::graph::document::GraphDocument;
use super::{AlchemistGraphDomain, FormulaId, FormulaSchema, SurfaceItemId};

verus! {

/// Identity of a formula property.
#[derive(Clone, Copy, Debug, PartialEq, Eq, Structural, PartialOrd, Ord, Hash)]
pub struct FormulaPropertyId(pub EntityId);

/// Identity of a managed region of a formula.
#[derive(Clone, Copy, Debug, PartialEq, Eq, Structural, PartialOrd, Ord, Hash)]
pub struct ManagedRegionId(pub EntityId);

impl FormulaPropertyId {
    /// A fresh random identity: the bits of a version 4 uuid.
    pub fn new() -> (id: Self)
        ensures
            random_uuid_bits(id.0.0),
    {
        FormulaPropertyId(EntityId::new())
    }
}

impl ManagedRegionId {
    /// A fresh random identity: the bits of a version 4 uuid.
    pub fn new() -> (id: Self)
        ensures
            random_uuid_bits(id.0.0),
    {
        ManagedRegionId(EntityId::new())
    }
}

/// A named, typed property of a formula with its default.
#[derive(Clone, Debug, PartialEq, Eq)]
pub struct FormulaProperty {
    pub id: FormulaPropertyId,
    pub name: String,
    pub value_type: String,
    pub default: Value,
}

/// An input of a formula's surface: the node input it feeds, its type and
/// its default.
#[derive(Clone, Debug, PartialEq, Eq)]
pub struct SurfaceInput {
    pub id: SurfaceItemId,
    pub label: String,
    pub target: PortRef,
    pub value_type: String,
    pub default: Value,
}

/// An output of a formula's surface: the node output it reads and its type.
#[derive(Clone, Debug, PartialEq, Eq)]
pub struct SurfaceOutput {
    pub id: SurfaceItemId,
    pub label: String,
    pub source: PortRef,
    pub value_type: String,
}

/// The inputs and outputs a formula offers to its users.
#[derive(Clone, Debug, PartialEq, Eq)]
pub struct FormulaSurface {
    pub inputs: Vec<SurfaceInput>,
    pub outputs: Vec<SurfaceOutput>,
}

impl Default for FormulaSurface {
    fn default() -> (surface: Self)
        ensures
            surface.inputs@.len() == 0,
            surface.outputs@.len() == 0,
    {
        FormulaSurface { inputs: Vec::new(), outputs: Vec::new() }
    }
}

/// A region of a formula whose items the host manages, with bounds on their
/// number.
#[derive(Clone, Debug, PartialEq, Eq)]
pub struct ManagedRegionDefinition {
    pub id: ManagedRegionId,
    pub label: String,
    pub item_type: String,
    pub minimum_items: usize,
    pub maximum_items: Option<usize>,
}

/// Descriptive data of a formula.
#[derive(Clone, Debug, PartialEq, Eq)]
pub struct FormulaMetadata {
    pub name: String,
    pub description: String,
    pub tags: Vec<String>,
}

impl Default for FormulaMetadata {
    fn default() -> (metadata: Self)
        ensures
            metadata.name@.len() == 0,
            metadata.description@.len() == 0,
            metadata.tags@.len() == 0,
    {
        FormulaMetadata { name: String::new(), description: String::new(), tags: Vec::new() }
    }
}

/// Default values of properties, by property identity.
#[derive(Clone, Debug, PartialEq, Eq)]
pub struct FormulaDefaults {
    pub properties: BTreeMap<FormulaPropertyId, Value>,
}

impl Default for FormulaDefaults {
    fn default() -> (defaults: Self)
        ensures
            defaults.properties@ == Map::<FormulaPropertyId, Value>::empty(),
    {
        FormulaDefaults { properties: BTreeMap::new() }
    }
}

/// An authored formula.
pub struct AlchemistFormula {
    pub id: FormulaId,
    pub schema: FormulaSchema,
    pub graph: GraphDocument<AlchemistGraphDomain>,
    pub properties: Vec<FormulaProperty>,
    pub surface: FormulaSurface,
    pub managed_regions: Vec<ManagedRegionDefinition>,
    pub metadata: FormulaMetadata,
    pub defaults: FormulaDefaults,
}


impl Duplicate for FormulaProperty {
    fn duplicate(&self) -> (copy: Self) {
        FormulaProperty {
            id: self.id,
            name: self.name.clone(),
            value_type: self.value_type.clone(),
            default: self.default.duplicate(),
        }
    }
}

impl Duplicate for SurfaceInput {
    fn duplicate(&self) -> (copy: Self) {
        SurfaceInput {
            id: self.id,
            label: self.label.clone(),
            target: self.target,
            value_type: self.value_type.clone(),
            default: self.default.duplicate(),
        }
    }
}

impl Duplicate for SurfaceOutput {
    fn duplicate(&self) -> (copy: Self) {
        SurfaceOutput {
            id: self.id,
            label: self.label.clone(),
            source: self.source,
            value_type: self.value_type.clone(),
        }
    }
}

impl Duplicate for ManagedRegionDefinition {
    fn duplicate(&self) -> (copy: Self) {
        ManagedRegionDefinition {
            id: self.id,
            label: self.label.clone(),
            item_type: self.item_type.clone(),
            minimum_items: self.minimum_items,
            maximum_items: self.maximum_items,
        }
    }
}

impl FormulaSurface {
    /// A surface with the same inputs and outputs.
    pub fn duplicate(&self) -> (copy: Self)
        ensures
            copy.inputs@ == self.inputs@,
            copy.outputs@ == self.outputs@,
    {
        FormulaSurface { inputs: duplicate_all(&self.inputs), outputs: duplicate_all(&self.outputs) }
    }
}

impl FormulaMetadata {
    /// Metadata with the same name, description and tags.
    pub fn duplicate(&self) -> (copy: Self)
        ensures
            copy.name == self.name,
            copy.description == self.description,
            copy.tags@ == self.tags@,
    {
        FormulaMetadata {
            name: self.name.clone(),
            description: self.description.clone(),
            tags: duplicate_all(&self.tags),
        }
    }
}

impl FormulaDefaults {
    /// Defaults with the same property values.
    pub fn duplicate(&self) -> (copy: Self)
        ensures
            copy.properties@ == self.properties@,
    {
        FormulaDefaults { properties: self.properties.clone() }
    }
}

} // verus!
