//! Typed identities of graphs, nodes, ports and edges.

use vstd::prelude::*;
use crate::model::{random_uuid_bits, EntityId};

verus! {

/// Identity of a graph document.
#[derive(Clone, Copy, Debug, PartialEq, Eq, Structural, PartialOrd, Ord, Hash)]
pub struct GraphId(pub EntityId);

/// Identity of a node within a graph.
#[derive(Clone, Copy, Debug, PartialEq, Eq, Structural, PartialOrd, Ord, Hash)]
pub struct GraphNodeId(pub EntityId);

/// Identity of a port of a node.
#[derive(Clone, Copy, Debug, PartialEq, Eq, Structural, PartialOrd, Ord, Hash)]
pub struct GraphPortId(pub EntityId);

/// Identity of an edge within a graph.
#[derive(Clone, Copy, Debug, PartialEq, Eq, Structural, PartialOrd, Ord, Hash)]
pub struct GraphEdgeId(pub EntityId);

impl GraphId {
    /// A fresh random identity: the bits of a version 4 uuid.
    pub fn new() -> (id: Self)
        ensures
            random_uuid_bits(id.0.0),
    {
        GraphId(EntityId::new())
    }

    pub fn from_entity(value: EntityId) -> (id: Self)
        ensures
            id.0 == value,
    {
        GraphId(value)
    }

    pub fn as_entity(self) -> (value: EntityId)
        ensures
            value == self.0,
    {
        self.0
    }
}

impl GraphNodeId {
    /// A fresh random identity: the bits of a version 4 uuid.
    pub fn new() -> (id: Self)
        ensures
            random_uuid_bits(id.0.0),
    {
        GraphNodeId(EntityId::new())
    }

    pub fn from_entity(value: EntityId) -> (id: Self)
        ensures
            id.0 == value,
    {
        GraphNodeId(value)
    }

    pub fn as_entity(self) -> (value: EntityId)
        ensures
            value == self.0,
    {
        self.0
    }

    /// The key under which the node is stored.
    pub open spec fn key(self) -> u128 {
        self.0.0
    }
}

impl GraphPortId {
    /// A fresh random identity: the bits of a version 4 uuid.
    pub fn new() -> (id: Self)
        ensures
            random_uuid_bits(id.0.0),
    {
        GraphPortId(EntityId::new())
    }

    pub fn from_entity(value: EntityId) -> (id: Self)
        ensures
            id.0 == value,
    {
        GraphPortId(value)
    }

    pub fn as_entity(self) -> (value: EntityId)
        ensures
            value == self.0,
    {
        self.0
    }
}

impl GraphEdgeId {
    /// A fresh random identity: the bits of a version 4 uuid.
    pub fn new() -> (id: Self)
        ensures
            random_uuid_bits(id.0.0),
    {
        GraphEdgeId(EntityId::new())
    }

    pub fn from_entity(value: EntityId) -> (id: Self)
        ensures
            id.0 == value,
    {
        GraphEdgeId(value)
    }

    pub fn as_entity(self) -> (value: EntityId)
        ensures
            value == self.0,
    {
        self.0
    }

    /// The key under which the edge is stored.
    pub open spec fn key(self) -> u128 {
        self.0.0
    }
}

} // verus!
