//! Presentation state of a graph: node placement, comments, groups and
//! viewport bookmarks. Coordinates are IEEE-754 doubles held by their bits
//! and are always finite.

use std::collections::{BTreeMap, BTreeSet};
use vstd::prelude::*;
use crate::model::{EntityId, finite_double_bits};

verus! {

#[derive(Clone, Copy, Debug, PartialEq, Eq, Structural)]
pub enum GeometryError {
    NonFiniteCoordinate,
}

/// A finite double coordinate, held by its IEEE-754 bits.
#[derive(Clone, Copy, Debug, PartialEq, Eq, Structural)]
pub struct FiniteCoordinate {
    bits: u64,
}

impl FiniteCoordinate {
    #[verifier::type_invariant]
    spec fn is_finite(self) -> bool {
        finite_double_bits(self.bits)
    }

    pub closed spec fn spec_bits(self) -> u64 {
        self.bits
    }

    /// Accepts the double with bits `bits` when it is finite.
    pub fn new(bits: u64) -> (result: Result<Self, GeometryError>)
        ensures
            finite_double_bits(bits) <==> (result is Ok),
            match result {
                Ok(coordinate) => coordinate.spec_bits() == bits,
                Err(error) => error == GeometryError::NonFiniteCoordinate,
            },
    {
        if (bits >> 52u64) & 0x7ffu64 != 0x7ffu64 {
            Ok(FiniteCoordinate { bits })
        } else {
            Err(GeometryError::NonFiniteCoordinate)
        }
    }

    /// The bits of the coordinate.
    pub fn get(self) -> (bits: u64)
        ensures
            bits == self.spec_bits(),
            finite_double_bits(bits),
    {
        proof {
            use_type_invariant(&self);
        }
        self.bits
    }
}

#[derive(Clone, Copy, Debug, PartialEq, Eq, Structural)]
pub struct Point {
    pub x: FiniteCoordinate,
    pub y: FiniteCoordinate,
}

impl Point {
    /// A point from the bits of two doubles; fails unless both are finite.
    pub fn new(x: u64, y: u64) -> (result: Result<Self, GeometryError>)
        ensures
            (finite_double_bits(x) && finite_double_bits(y)) <==> (result is Ok),
            match result {
                Ok(point) => point.x.spec_bits() == x && point.y.spec_bits() == y,
                Err(error) => error == GeometryError::NonFiniteCoordinate,
            },
    {
        let x = match FiniteCoordinate::new(x) {
            Ok(x) => x,
            Err(error) => return Err(error),
        };
        let y = match FiniteCoordinate::new(y) {
            Ok(y) => y,
            Err(error) => return Err(error),
        };
        Ok(Point { x, y })
    }
}

#[derive(Clone, Copy, Debug, PartialEq, Eq, Structural)]
pub struct Size {
    pub width: FiniteCoordinate,
    pub height: FiniteCoordinate,
}

impl Size {
    /// A size from the bits of two doubles; fails unless both are finite.
    pub fn new(width: u64, height: u64) -> (result: Result<Self, GeometryError>)
        ensures
            (finite_double_bits(width) && finite_double_bits(height)) <==> (result is Ok),
            match result {
                Ok(size) => size.width.spec_bits() == width && size.height.spec_bits() == height,
                Err(error) => error == GeometryError::NonFiniteCoordinate,
            },
    {
        let width = match FiniteCoordinate::new(width) {
            Ok(w) => w,
            Err(error) => return Err(error),
        };
        let height = match FiniteCoordinate::new(height) {
            Ok(h) => h,
            Err(error) => return Err(error),
        };
        Ok(Size { width, height })
    }
}

#[derive(Clone, Copy, Debug, PartialEq, Eq, Structural)]
pub struct NodePresentation {
    pub position: Point,
    pub size: Size,
    pub collapsed: bool,
}

#[derive(Clone, Debug, PartialEq, Eq)]
pub struct GraphComment {
    pub id: EntityId,
    pub text: String,
    pub position: Point,
    pub size: Size,
}

/// A labelled set of nodes, keyed by node identity bits.
#[derive(Clone, Debug, PartialEq, Eq)]
pub struct GraphGroup {
    pub id: EntityId,
    pub label: String,
    pub nodes: BTreeSet<u128>,
}

#[derive(Clone, Debug, PartialEq, Eq)]
pub struct ViewportBookmark {
    pub id: EntityId,
    pub label: String,
    pub center: Point,
    pub zoom: FiniteCoordinate,
}

/// Presentation maps, each keyed by the bits of the owning identity.
#[derive(Clone, Debug, PartialEq, Eq)]
pub struct GraphPresentation {
    pub nodes: BTreeMap<u128, NodePresentation>,
    pub comments: BTreeMap<u128, GraphComment>,
    pub groups: BTreeMap<u128, GraphGroup>,
    pub bookmarks: BTreeMap<u128, ViewportBookmark>,
}

impl GraphPresentation {
    /// Empty presentation.
    pub fn new() -> (presentation: Self)
        ensures
            presentation.nodes@ == Map::<u128, NodePresentation>::empty(),
            presentation.comments@ == Map::<u128, GraphComment>::empty(),
            presentation.groups@ == Map::<u128, GraphGroup>::empty(),
            presentation.bookmarks@ == Map::<u128, ViewportBookmark>::empty(),
    {
        GraphPresentation {
            nodes: BTreeMap::new(),
            comments: BTreeMap::new(),
            groups: BTreeMap::new(),
            bookmarks: BTreeMap::new(),
        }
    }
}


impl GraphComment {
    /// An equal comment.
    pub fn duplicate(&self) -> (copy: Self)
        ensures
            copy == *self,
    {
        GraphComment { id: self.id, text: self.text.clone(), position: self.position, size: self.size }
    }
}

impl ViewportBookmark {
    /// An equal bookmark.
    pub fn duplicate(&self) -> (copy: Self)
        ensures
            copy == *self,
    {
        ViewportBookmark { id: self.id, label: self.label.clone(), center: self.center, zoom: self.zoom }
    }
}

impl GraphGroup {
    /// A group with the same identity, label and nodes.
    pub fn duplicate(&self) -> (copy: Self)
        ensures
            copy.id == self.id,
            copy.label == self.label,
            copy.nodes@ == self.nodes@,
    {
        GraphGroup { id: self.id, label: self.label.clone(), nodes: self.nodes.clone() }
    }
}

impl GraphPresentation {
    /// A presentation with the same maps.
    pub fn duplicate(&self) -> (copy: Self)
        ensures
            copy.nodes@ == self.nodes@,
            copy.comments@ == self.comments@,
            copy.groups@ == self.groups@,
            copy.bookmarks@ == self.bookmarks@,
    {
        GraphPresentation {
            nodes: self.nodes.clone(),
            comments: self.comments.clone(),
            groups: self.groups.clone(),
            bookmarks: self.bookmarks.clone(),
        }
    }
}

} // verus!
