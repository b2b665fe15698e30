//! Reference handles to endpoints.
//!
//! The engine that owns the endpoints hands out two kinds of handle. A
//! canonical reference names an endpoint by its settled identity and may be
//! compared, hashed and used as a key. A pending reference names a computation
//! that will yield an endpoint; only forcing it through the engine tells which
//! one, so it offers neither equality nor hashing.

use vstd::prelude::*;

verus! {

/// A canonical reference: the settled identity of one endpoint.
///
/// Two canonical references are equal exactly when they name the same
/// endpoint.
#[derive(Clone, Copy, Debug, PartialEq, Eq, Hash, Structural)]
pub struct ResolvedEndpoint {
    pub id: u64,
}

/// A pending reference: the identity of a computation whose result is an
/// endpoint.
#[derive(Clone, Copy, Debug)]
pub struct PendingEndpoint {
    pub task: u64,
}

/// A reference as a route entry holds it before resolution: pending, or
/// canonical already.
#[derive(Clone, Copy, Debug)]
pub enum EndpointRef {
    Pending(PendingEndpoint),
    Canonical(ResolvedEndpoint),
}

impl EndpointRef {
    /// The canonical reference held, if any.
    pub fn canonical(&self) -> (id: Option<ResolvedEndpoint>)
        ensures
            id == match *self {
                EndpointRef::Canonical(c) => Some(c),
                EndpointRef::Pending(_) => None::<ResolvedEndpoint>,
            },
    {
        match *self {
            EndpointRef::Canonical(c) => Some(c),
            EndpointRef::Pending(_) => None,
        }
    }

    /// Whether two references hold the same identity of the same kind.
    pub(crate) fn same(&self, other: &EndpointRef) -> (same: bool)
        ensures
            same == (*self == *other),
    {
        match (*self, *other) {
            (EndpointRef::Pending(a), EndpointRef::Pending(b)) => a.task == b.task,
            (EndpointRef::Canonical(a), EndpointRef::Canonical(b)) => a.id == b.id,
            _ => false,
        }
    }
}

} // verus!
