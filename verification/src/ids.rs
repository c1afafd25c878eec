//! Identifiers shared by every engine of a core.
use vstd::prelude::*;

verus! {

/// A database within a node.
#[derive(Clone, Copy, Debug, PartialEq, Eq, Structural)]
pub struct DatabaseId(pub u64);

impl DatabaseId {
    pub fn new(id: u64) -> (r: DatabaseId)
        ensures
            r == DatabaseId(id),
    {
        DatabaseId(id)
    }

    /// The database that unqualified names belong to.
    pub fn default_id() -> (r: DatabaseId)
        ensures
            r == DatabaseId(0),
    {
        DatabaseId(0)
    }

    pub fn as_u64(&self) -> (r: u64)
        ensures
            r == self.0,
    {
        self.0
    }
}

/// A tenant within a database.
#[derive(Clone, Copy, Debug, PartialEq, Eq, Structural)]
pub struct TenantId(pub u64);

impl TenantId {
    pub fn new(id: u64) -> (r: TenantId)
        ensures
            r == TenantId(id),
    {
        TenantId(id)
    }

    pub fn as_u64(&self) -> (r: u64)
        ensures
            r == self.0,
    {
        self.0
    }
}

/// The node-wide number a primary key is bound to. Zero stands for "unbound".
#[derive(Clone, Copy, Debug, PartialEq, Eq, Structural)]
pub struct Surrogate(pub u32);

impl Surrogate {
    pub fn new(id: u32) -> (r: Surrogate)
        ensures
            r == Surrogate(id),
    {
        Surrogate(id)
    }

    /// The surrogate that stands for "no binding".
    pub fn zero() -> (r: Surrogate)
        ensures
            r == Surrogate(0),
    {
        Surrogate(0)
    }

    pub fn as_u32(&self) -> (r: u32)
        ensures
            r == self.0,
    {
        self.0
    }
}

} // verus!
