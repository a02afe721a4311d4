//! Entity identifiers, monotonic revisions and revision-owning change sets.

use vstd::prelude::*;

verus! {

/// Monotonic document revision. Revisions never wrap: advancing the largest
/// revision fails.
#[derive(Clone, Copy, Debug, PartialEq, Eq, Structural, PartialOrd, Ord, Hash)]
pub struct Revision(pub u64);

impl Revision {
    /// The revision of a fresh document.
    pub fn zero() -> (revision: Self)
        ensures
            revision.0 == 0,
    {
        Revision(0)
    }

    pub fn new(value: u64) -> (revision: Self)
        ensures
            revision.0 == value,
    {
        Revision(value)
    }

    pub fn get(self) -> (value: u64)
        ensures
            value == self.0,
    {
        self.0
    }

    /// The revision that follows this one, or `None` when the revision space is exhausted.
    pub fn next(self) -> (next: Option<Self>)
        ensures
            match next {
                Some(r) => self.0 < u64::MAX && r.0 == self.0 + 1,
                None => self.0 == u64::MAX,
            },
    {
        if self.0 == u64::MAX {
            None
        } else {
            Some(Revision(self.0 + 1))
        }
    }
}

/// A set of changes that owns exactly one revision transition `before -> after`.
#[derive(Clone, Debug)]
pub struct ChangeSet<T> {
    pub before: Revision,
    pub after: Revision,
    pub changes: Vec<T>,
}

impl<T> ChangeSet<T> {
    /// Records `changes` as the transition from `before` to the next revision.
    /// Fails when `before` is the last revision.
    pub fn new(before: Revision, changes: Vec<T>) -> (result: Option<Self>)
        ensures
            match result {
                Some(set) => before.0 < u64::MAX && set.before == before && set.after.0 == before.0 + 1
                    && set.changes@ == changes@,
                None => before.0 == u64::MAX,
            },
    {
        match before.next() {
            Some(after) => Some(ChangeSet { before, after, changes }),
            None => None,
        }
    }
}

/// Whether the IEEE-754 double whose bits are `bits` is finite: its exponent
/// field is not all ones.
pub open spec fn finite_double_bits(bits: u64) -> bool {
    (bits >> 52u64) & 0x7ffu64 != 0x7ffu64
}

/// Opaque 128-bit identity of an authored entity.
#[derive(Clone, Copy, Debug, PartialEq, Eq, Structural, PartialOrd, Ord, Hash, Default)]
pub struct EntityId(pub u128);

/// Whether `bits` are those of a random (version 4) uuid: the version field
/// holds 4 and the variant field the RFC 4122 variant (binary 10); the other
/// 122 bits are free.
pub open spec fn random_uuid_bits(bits: u128) -> bool {
    bits & 0xF000_C000_0000_0000_0000u128 == 0x4000_8000_0000_0000_0000u128
}

/// Draws a fresh random identity. Calls `uuid::Uuid::new_v4` and returns the
/// uuid's 128 bits. The claim is only that they form a version 4 uuid: the
/// function masks random bits and sets the version and variant fields. What
/// the other bits hold, which come from the operating system's random
/// source, is not stated.
#[verifier::external_body]
fn random_entity_bits() -> (bits: u128)
    ensures
        random_uuid_bits(bits),
{
    uuid::Uuid::new_v4().as_u128()
}

impl EntityId {
    /// A fresh random identity: the bits of a version 4 uuid.
    pub fn new() -> (id: Self)
        ensures
            random_uuid_bits(id.0),
    {
        EntityId(random_entity_bits())
    }

    /// The identity whose 128 bits are `bits` (the bits of a uuid).
    pub fn from_u128(bits: u128) -> (id: Self)
        ensures
            id.0 == bits,
    {
        EntityId(bits)
    }

    pub fn as_u128(self) -> (bits: u128)
        ensures
            bits == self.0,
    {
        self.0
    }
}

} // verus!
