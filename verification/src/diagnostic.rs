//! What rendering reports when it has to skip something.

use crate::objects::MemberRef;
use vstd::prelude::*;

verus! {

/// A reference that could not be followed. None of these stops rendering:
/// the object is left out and the rest is drawn.
#[derive(Clone, Copy, Debug, PartialEq, Eq, Structural)]
pub enum Diagnostic {
    /// A requested relation is not in the store.
    RelationNotFound { relation: i64 },
    /// A requested way is not in the store.
    WayNotFound { way: i64 },
    /// A node that `way` runs through is not in the store.
    NodeNotFound { node: i64, way: i64 },
    /// A member of `relation` is not in the store.
    MemberNotFound { member: MemberRef, relation: i64 },
    /// Relation `entered` is listed in `relation` while it is itself being
    /// rendered further up: following it would never end.
    MemberCycle { entered: i64, relation: i64 },
}

} // verus!
