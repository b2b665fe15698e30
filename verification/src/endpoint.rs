//! The capability that every build unit behind a route offers, and the
//! free-standing operations by which an orchestrator addresses it.

use crate::reference::ResolvedEndpoint;
use crate::written::WrittenEndpoint;
use vstd::prelude::*;

verus! {

/// A change token: it tells nothing about what changed, and is another one
/// exactly when the set of dependencies that it stands for has changed.
#[derive(Clone, Copy, Debug, PartialEq, Eq, Hash, Structural)]
pub struct ChangeToken {
    pub epoch: u64,
}

/// A canonical reference to a module.
#[derive(Clone, Copy, Debug, PartialEq, Eq, Hash, Structural)]
pub struct ModuleRef {
    pub id: u64,
}

/// A reference to a module graph as it was built at one moment.
#[derive(Clone, Copy, Debug, PartialEq, Eq, Hash, Structural)]
pub struct ModuleGraph {
    pub snapshot: u64,
}

/// A set of entry modules, in the order in which they were named.
#[derive(Clone, Debug)]
pub struct Modules(pub Vec<ModuleRef>);

impl View for Modules {
    type V = Seq<ModuleRef>;

    open spec fn view(&self) -> Seq<ModuleRef> {
        self.0@
    }
}

impl Modules {
    /// No module at all.
    pub fn empty() -> (modules: Modules)
        ensures
            modules@ == Seq::<ModuleRef>::empty(),
    {
        Modules(Vec::new())
    }
}

/// What a build unit behind a route can do, whatever its kind.
///
/// The engine that owns the endpoints calls these and caches what they
/// return; the route layer only names them. An implementation answers from
/// the state of the endpoint alone: `server_changed`, `client_changed`,
/// `root_modules` and `additional_root_modules` write nothing, and two calls of
/// `additional_root_modules` on one graph give the same modules.
pub trait Endpoint {
    /// How a computation of the endpoint fails. The route layer hands such a
    /// failure on as it is and does not try again.
    type Failure;

    /// Materializes the output of the endpoint.
    fn write_to_disk(&self) -> Result<WrittenEndpoint, Self::Failure>;

    /// The token of the dependencies that matter on the server side.
    fn server_changed(&self) -> Result<ChangeToken, Self::Failure>;

    /// The token of the dependencies that matter on the client side.
    fn client_changed(&self) -> Result<ChangeToken, Self::Failure>;

    /// The entry modules for the module graph.
    fn root_modules(&self) -> Result<Modules, Self::Failure>;

    /// Additional entry modules for the module graph, which an implementation
    /// may find by reading the graph. Without one of its own an endpoint has
    /// none.
    fn additional_root_modules(&self, graph: &ModuleGraph) -> (modules: Result<
        Modules,
        Self::Failure,
    >)
        default_ensures
            modules matches Ok(none) && none@ == Seq::<ModuleRef>::empty(),
    {
        Ok(Modules::empty())
    }
}

/// A list of canonical references to endpoints.
#[derive(Clone, Debug)]
pub struct Endpoints(pub Vec<ResolvedEndpoint>);

impl View for Endpoints {
    type V = Seq<ResolvedEndpoint>;

    open spec fn view(&self) -> Seq<ResolvedEndpoint> {
        self.0@
    }
}

/// The operations of an endpoint that can be addressed from outside.
#[derive(Clone, Copy, Debug, PartialEq, Eq, Hash, Structural)]
pub enum OperationKind {
    WriteToDisk,
    ServerChanged,
}

/// A handle to one operation on one endpoint: the kind of the operation and
/// the canonical reference of the endpoint, and nothing else.
///
/// An orchestrator can keep and compare such handles without holding the
/// endpoint. Two handles are equal exactly when they name the same operation
/// on the same endpoint, so the engine can key what it has computed by them.
#[derive(Clone, Copy, Debug, PartialEq, Eq, Hash, Structural)]
pub struct EndpointOperation {
    pub kind: OperationKind,
    pub endpoint: ResolvedEndpoint,
}

/// What running an [`EndpointOperation`] gives.
#[derive(Clone, Debug)]
pub enum OperationOutput {
    Written(WrittenEndpoint),
    ServerChanged(ChangeToken),
}

/// The handle to `write_to_disk` on `endpoint`.
pub fn endpoint_write_to_disk_operation(endpoint: ResolvedEndpoint) -> (operation:
    EndpointOperation)
    ensures
        operation == (EndpointOperation { kind: OperationKind::WriteToDisk, endpoint }),
{
    EndpointOperation { kind: OperationKind::WriteToDisk, endpoint }
}

/// The handle to `server_changed` on `endpoint`.
pub fn endpoint_server_changed_operation(endpoint: ResolvedEndpoint) -> (operation:
    EndpointOperation)
    ensures
        operation == (EndpointOperation { kind: OperationKind::ServerChanged, endpoint }),
{
    EndpointOperation { kind: OperationKind::ServerChanged, endpoint }
}

/// `output` is what the method that `kind` names may return on `endpoint`.
pub open spec fn runs_as<T: Endpoint>(
    kind: OperationKind,
    endpoint: &T,
    output: Result<OperationOutput, T::Failure>,
) -> bool {
    match kind {
        OperationKind::WriteToDisk => match output {
            Ok(OperationOutput::Written(written)) => call_ensures(
                T::write_to_disk,
                (endpoint,),
                Ok::<WrittenEndpoint, T::Failure>(written),
            ),
            Ok(OperationOutput::ServerChanged(_)) => false,
            Err(failure) => call_ensures(
                T::write_to_disk,
                (endpoint,),
                Err::<WrittenEndpoint, T::Failure>(failure),
            ),
        },
        OperationKind::ServerChanged => match output {
            Ok(OperationOutput::ServerChanged(token)) => call_ensures(
                T::server_changed,
                (endpoint,),
                Ok::<ChangeToken, T::Failure>(token),
            ),
            Ok(OperationOutput::Written(_)) => false,
            Err(failure) => call_ensures(
                T::server_changed,
                (endpoint,),
                Err::<ChangeToken, T::Failure>(failure),
            ),
        },
    }
}

impl EndpointOperation {
    /// Runs the operation on `endpoint`, the endpoint that the handle refers
    /// to: the result is that of calling the method itself, a failure
    /// included.
    pub fn run<T: Endpoint>(&self, endpoint: &T) -> (output: Result<OperationOutput, T::Failure>)
        ensures
            runs_as(self.kind, endpoint, output),
    {
        match self.kind {
            OperationKind::WriteToDisk => match endpoint.write_to_disk() {
                Ok(written) => Ok(OperationOutput::Written(written)),
                Err(failure) => Err(failure),
            },
            OperationKind::ServerChanged => match endpoint.server_changed() {
                Ok(token) => Ok(OperationOutput::ServerChanged(token)),
                Err(failure) => Err(failure),
            },
        }
    }
}

} // verus!
