//! The engine's typed failure taxonomy.

use vstd::prelude::*;
use crate::ident::Identifier;
use crate::types::Parent;
use crate::values::{Value, ValueType};

verus! {

/// Every way an engine operation can fail. Failures are returned as values,
/// never used for control flow elsewhere, and a failing mutation leaves the
/// store exactly as it was.
#[derive(Debug)]
pub enum Error {
    /// A template or node referenced by id does not exist.
    NotFound { entity: String, id: Identifier },
    /// A stored `previous`/`next` reference does not resolve to a record.
    BrokenNodeLink { current: Identifier, linked: Identifier },
    /// A node whose owning template no longer exists.
    OrphanedNode { id: Identifier },
    /// An `Into` placement targeted a collection that already has a member.
    NonEmptyParent { parent: Parent, id: Identifier },
    /// An update tried to change an attribute that is fixed at creation.
    Immutable { attribute: String },
    /// A record with this primary key already exists.
    DuplicateIdentifier { id: Identifier },
    /// A template with this name or friendly id already exists.
    DuplicateName { name: String },
    /// A placement referenced a node of a different template.
    TemplateMismatch { expected: Identifier, found: Identifier },
    /// A move named the moved node itself as its reference point.
    SelfReference { id: Identifier },
    /// The declared value type does not match the requested extraction kind.
    InvalidCast { value_type: ValueType, expected_type: String },
    /// The declared value type matches, but the runtime value's shape does not.
    InvalidCastDatatype { value_type: ValueType, value: Value },
}

pub type EngineResult<T> = Result<T, Error>;

} // verus!
