//! The tenant root and the error taxonomy shared by every part of the store.

use vstd::prelude::*;

verus! {

/// Tenant isolation root: every other entity belongs to one project.
#[derive(Clone, Copy, Debug, PartialEq, Eq, Structural)]
pub struct Project {
    pub id: i64,
}

impl Project {
    pub fn new_from_id(id: i64) -> (r: Project)
        ensures
            r.id == id,
    {
        Project { id }
    }

    pub fn project_id(&self) -> (r: i64)
        ensures
            r == self.id,
    {
        self.id
    }
}

/// Why a write was refused. An absent entity is no error: lookups answer
/// with `None` or an empty listing.
#[derive(Clone, Copy, Debug, PartialEq, Eq, Structural)]
pub enum StoreError {
    /// The write would break a uniqueness rule; nothing was changed.
    Conflict,
    /// An identifier or payload is malformed, or names an absent owner.
    InvalidInput,
    /// The backend failed; nothing was changed.
    Backend,
}

} // verus!
